//! The filter language: a boolean tree of regex atoms joined by `&&`, `||`
//! and `!`, its lexer and recursive-descent parser, and its evaluator.
use vstd::prelude::*;
use crate::pattern::{Pattern, compile, is_match, find_all, regex_compiles, regex_is_match, regex_find_all};
use crate::text::{chars_of, string_from, push_char, trim_bounds, trim_chars};

verus! {

/// The meaning of a filter expression: its tree, with each atom's pattern text.
pub enum Query {
    Atom(Seq<char>),
    And(Box<Query>, Box<Query>),
    Or(Box<Query>, Box<Query>),
    Not(Box<Query>),
}

/// Whether a query accepts a line's text.
pub open spec fn eval(q: Query, text: Seq<char>) -> bool
    decreases q,
{
    match q {
        Query::Atom(p) => regex_is_match(p, text),
        Query::And(a, b) => eval(*a, text) && eval(*b, text),
        Query::Or(a, b) => eval(*a, text) || eval(*b, text),
        Query::Not(a) => !eval(*a, text),
    }
}

/// Every match of every atom, `Not` included, left atoms first.
pub open spec fn leaf_matches(q: Query, text: Seq<char>) -> Seq<(usize, usize)>
    decreases q,
{
    match q {
        Query::Atom(p) => regex_find_all(p, text),
        Query::And(a, b) => leaf_matches(*a, text) + leaf_matches(*b, text),
        Query::Or(a, b) => leaf_matches(*a, text) + leaf_matches(*b, text),
        Query::Not(a) => leaf_matches(*a, text),
    }
}

/// A compiled filter expression.
pub enum FilterExpr {
    Pattern(Pattern),
    And(Box<FilterExpr>, Box<FilterExpr>),
    Or(Box<FilterExpr>, Box<FilterExpr>),
    Not(Box<FilterExpr>),
}

pub open spec fn query_of(e: &FilterExpr) -> Query
    decreases e,
{
    match e {
        FilterExpr::Pattern(p) => Query::Atom(p@),
        FilterExpr::And(a, b) => Query::And(Box::new(query_of(a)), Box::new(query_of(b))),
        FilterExpr::Or(a, b) => Query::Or(Box::new(query_of(a)), Box::new(query_of(b))),
        FilterExpr::Not(a) => Query::Not(Box::new(query_of(a))),
    }
}

impl View for FilterExpr {
    type V = Query;

    open spec fn view(&self) -> Query {
        query_of(self)
    }
}

impl FilterExpr {
    /// Short-circuiting evaluation of the tree on `text`.
    pub fn matches(&self, text: &str) -> (r: bool)
        ensures
            r == eval(self@, text@),
        decreases self,
    {
        match self {
            FilterExpr::Pattern(p) => is_match(p, text),
            FilterExpr::And(a, b) => a.matches(text) && b.matches(text),
            FilterExpr::Or(a, b) => a.matches(text) || b.matches(text),
            FilterExpr::Not(a) => !a.matches(text),
        }
    }
}

/// A lexical token of the filter language.
pub enum Token {
    LParen,
    RParen,
    And,
    Or,
    Not,
    Pattern(String),
}

/// A token, with an atom's payload as characters.
pub enum Tok {
    LParen,
    RParen,
    And,
    Or,
    Not,
    Atom(Seq<char>),
}

impl View for Token {
    type V = Tok;

    open spec fn view(&self) -> Tok {
        match self {
            Token::LParen => Tok::LParen,
            Token::RParen => Tok::RParen,
            Token::And => Tok::And,
            Token::Or => Tok::Or,
            Token::Not => Tok::Not,
            Token::Pattern(p) => Tok::Atom(p@),
        }
    }
}

pub open spec fn toks_of(ts: Seq<Token>) -> Seq<Tok> {
    ts.map_values(|t: Token| t@)
}

/// Why a filter string does not parse.
pub enum FilterError {
    /// The input is empty or white space only.
    EmptyExpression,
    /// A quoted atom has no closing quote.
    UnterminatedString,
    /// A `&` that is not followed by a second `&`.
    ExpectedAnd,
    /// A `|` that is not followed by a second `|`.
    ExpectedOr,
    /// The tokens end where an operand is expected.
    UnexpectedEnd,
    /// The token at this position does not fit the grammar.
    UnexpectedToken(usize),
    /// A `(` without its `)`.
    MissingClosingParen,
    /// An atom's text is no valid regular expression: the atom, and why.
    InvalidRegex(String, String),
}

/// A parse failure as contracts see it: the regex error's wording is left out.
pub enum Fault {
    EmptyExpression,
    UnterminatedString,
    ExpectedAnd,
    ExpectedOr,
    UnexpectedEnd,
    UnexpectedToken(int),
    MissingClosingParen,
    InvalidRegex(Seq<char>),
}

impl View for FilterError {
    type V = Fault;

    open spec fn view(&self) -> Fault {
        match self {
            FilterError::EmptyExpression => Fault::EmptyExpression,
            FilterError::UnterminatedString => Fault::UnterminatedString,
            FilterError::ExpectedAnd => Fault::ExpectedAnd,
            FilterError::ExpectedOr => Fault::ExpectedOr,
            FilterError::UnexpectedEnd => Fault::UnexpectedEnd,
            FilterError::UnexpectedToken(p) => Fault::UnexpectedToken(*p as int),
            FilterError::MissingClosingParen => Fault::MissingClosingParen,
            FilterError::InvalidRegex(a, _) => Fault::InvalidRegex(a@),
        }
    }
}

/// Characters that end a bare atom.
pub open spec fn ends_bare(c: char) -> bool {
    c == '(' || c == ')' || c == '&' || c == '|' || c == '!' || c == ' ' || c == '\t'
}

/// The index where the bare atom that starts at `i` ends.
pub open spec fn bare_end(s: Seq<char>, i: int) -> int
    decreases s.len() - i,
{
    if i < 0 || i >= s.len() || ends_bare(s[i]) {
        i
    } else {
        bare_end(s, i + 1)
    }
}

/// The payload of a quoted atom whose body starts at `j`, closed by `q`, and
/// the index after the closing quote; `None` when it is not closed. A
/// backslash takes the next character literally.
pub open spec fn quoted(s: Seq<char>, j: int, q: char) -> Option<(Seq<char>, int)>
    decreases s.len() - j,
{
    if j < 0 || j >= s.len() {
        None
    } else if s[j] == q {
        Some((Seq::empty(), j + 1))
    } else if s[j] == '\\' {
        if j + 1 < s.len() {
            match quoted(s, j + 2, q) {
                Some((p, k)) => Some((seq![s[j + 1]] + p, k)),
                None => None,
            }
        } else {
            None
        }
    } else {
        match quoted(s, j + 1, q) {
            Some((p, k)) => Some((seq![s[j]] + p, k)),
            None => None,
        }
    }
}

pub open spec fn prepend(t: Seq<Tok>, r: Result<Seq<Tok>, Fault>) -> Result<Seq<Tok>, Fault> {
    match r {
        Ok(rest) => Ok(t + rest),
        Err(f) => Err(f),
    }
}

/// The tokens of `s` from index `i` on.
pub open spec fn lex(s: Seq<char>, i: int) -> Result<Seq<Tok>, Fault>
    decreases s.len() - i,
{
    if i < 0 || i >= s.len() {
        Ok(Seq::empty())
    } else {
        let c = s[i];
        if c == ' ' || c == '\t' {
            lex(s, i + 1)
        } else if c == '(' {
            prepend(seq![Tok::LParen], lex(s, i + 1))
        } else if c == ')' {
            prepend(seq![Tok::RParen], lex(s, i + 1))
        } else if c == '&' {
            if i + 1 < s.len() && s[i + 1] == '&' {
                prepend(seq![Tok::And], lex(s, i + 2))
            } else {
                Err(Fault::ExpectedAnd)
            }
        } else if c == '|' {
            if i + 1 < s.len() && s[i + 1] == '|' {
                prepend(seq![Tok::Or], lex(s, i + 2))
            } else {
                Err(Fault::ExpectedOr)
            }
        } else if c == '!' {
            prepend(seq![Tok::Not], lex(s, i + 1))
        } else if c == '"' || c == '\'' {
            match quoted(s, i + 1, c) {
                Some((p, k)) => if i < k <= s.len() {
                    prepend(seq![Tok::Atom(p)], lex(s, k))
                } else {
                    Err(Fault::UnterminatedString)
                },
                None => Err(Fault::UnterminatedString),
            }
        } else {
            let k = bare_end(s, i);
            if i < k <= s.len() {
                prepend(seq![Tok::Atom(s.subrange(i, k))], lex(s, k))
            } else {
                lex(s, i + 1)
            }
        }
    }
}

proof fn lemma_bare_end_bounds(s: Seq<char>, i: int)
    requires
        0 <= i <= s.len(),
    ensures
        i <= bare_end(s, i) <= s.len(),
    decreases s.len() - i,
{
    if i < s.len() && !ends_bare(s[i]) {
        lemma_bare_end_bounds(s, i + 1);
    }
}

proof fn lemma_quoted_bounds(s: Seq<char>, j: int, q: char)
    requires
        0 <= j,
    ensures
        quoted(s, j, q) matches Some((_, k)) ==> j < k <= s.len(),
    decreases s.len() - j,
{
    if 0 <= j < s.len() && s[j] != q {
        if s[j] == '\\' {
            if j + 1 < s.len() {
                lemma_quoted_bounds(s, j + 2, q);
            }
        } else {
            lemma_quoted_bounds(s, j + 1, q);
        }
    }
}

/// The tokens of the quoted atom whose opening quote is at `i`.
fn lex_quoted(cs: &Vec<char>, i: usize) -> (r: Option<(String, usize)>)
    requires
        i < cs@.len(),
    ensures
        match r {
            Some((p, k)) => quoted(cs@, i + 1, cs@[i as int]) == Some((p@, k as int)),
            None => quoted(cs@, i + 1, cs@[i as int]) is None,
        },
{
    let q = cs[i];
    let n = cs.len();
    let mut p = String::new();
    let mut j = i + 1;
    proof {
        lemma_quoted_bounds(cs@, (i + 1) as int, q);
    }
    loop
        invariant
            n == cs@.len(),
            q == cs@[i as int],
            i + 1 <= j,
            quoted(cs@, i + 1, q) == match quoted(cs@, j as int, q) {
                Some((rest, k)) => Some((p@ + rest, k)),
                None => None,
            },
        decreases n + 2 - j,
    {
        if j >= n {
            return None;
        }
        let c = cs[j];
        if c == q {
            assert(p@ + Seq::<char>::empty() =~= p@);
            return Some((p, j + 1));
        } else if c == '\\' {
            if j + 1 < n {
                let ghost old_p = p@;
                push_char(&mut p, cs[j + 1]);
                proof {
                    match quoted(cs@, j + 2, q) {
                        Some((rest, k)) => {
                            assert(old_p + (seq![cs@[j + 1]] + rest) =~= p@ + rest);
                        },
                        None => {},
                    }
                }
                j = j + 2;
            } else {
                return None;
            }
        } else {
            let ghost old_p = p@;
            push_char(&mut p, c);
            proof {
                match quoted(cs@, j + 1, q) {
                    Some((rest, k)) => {
                        assert(old_p + (seq![cs@[j as int]] + rest) =~= p@ + rest);
                    },
                    None => {},
                }
            }
            j = j + 1;
        }
    }
}

fn is_bare_end(c: char) -> (r: bool)
    ensures
        r == ends_bare(c),
{
    c == '(' || c == ')' || c == '&' || c == '|' || c == '!' || c == ' ' || c == '\t'
}

/// Splits the characters of a filter string into tokens.
pub fn tokenize_chars(cs: &Vec<char>) -> (r: Result<Vec<Token>, FilterError>)
    ensures
        match r {
            Ok(ts) => lex(cs@, 0) == Ok::<Seq<Tok>, Fault>(toks_of(ts@)),
            Err(e) => lex(cs@, 0) == Err::<Seq<Tok>, Fault>(e@),
        },
{
    let n = cs.len();
    let mut ts: Vec<Token> = Vec::new();
    let mut i: usize = 0;
    while i < n
        invariant
            n == cs@.len(),
            i <= n,
            lex(cs@, 0) == prepend(toks_of(ts@), lex(cs@, i as int)),
        decreases n - i,
    {
        let ghost ts0 = toks_of(ts@);
        let c = cs[i];
        if c == ' ' || c == '\t' {
            i = i + 1;
        } else if c == '(' || c == ')' || c == '!' {
            let t = if c == '(' {
                Token::LParen
            } else if c == ')' {
                Token::RParen
            } else {
                Token::Not
            };
            ts.push(t);
            proof {
                assert(toks_of(ts@) =~= ts0 + seq![t@]);
                match lex(cs@, i + 1) {
                    Ok(rest) => assert(ts0 + (seq![t@] + rest) =~= toks_of(ts@) + rest),
                    Err(_) => {},
                }
            }
            i = i + 1;
        } else if c == '&' || c == '|' {
            if i + 1 < n && cs[i + 1] == c {
                let t = if c == '&' {
                    Token::And
                } else {
                    Token::Or
                };
                ts.push(t);
                proof {
                    assert(toks_of(ts@) =~= ts0 + seq![t@]);
                    match lex(cs@, i + 2) {
                        Ok(rest) => assert(ts0 + (seq![t@] + rest) =~= toks_of(ts@) + rest),
                        Err(_) => {},
                    }
                }
                i = i + 2;
            } else if c == '&' {
                return Err(FilterError::ExpectedAnd);
            } else {
                return Err(FilterError::ExpectedOr);
            }
        } else if c == '"' || c == '\'' {
            match lex_quoted(cs, i) {
                Some((p, k)) => {
                    proof {
                        lemma_quoted_bounds(cs@, i + 1, c);
                    }
                    let t = Token::Pattern(p);
                    ts.push(t);
                    proof {
                        assert(toks_of(ts@) =~= ts0 + seq![t@]);
                        match lex(cs@, k as int) {
                            Ok(rest) => assert(ts0 + (seq![t@] + rest) =~= toks_of(ts@) + rest),
                            Err(_) => {},
                        }
                    }
                    i = k;
                },
                None => {
                    return Err(FilterError::UnterminatedString);
                },
            }
        } else {
            let mut k = i;
            while k < n && !is_bare_end(cs[k])
                invariant
                    n == cs@.len(),
                    i <= k <= n,
                    bare_end(cs@, i as int) == bare_end(cs@, k as int),
                decreases n - k,
            {
                k = k + 1;
            }
            proof {
                lemma_bare_end_bounds(cs@, i as int);
            }
            let p = string_from(cs, i, k);
            let t = Token::Pattern(p);
            ts.push(t);
            proof {
                assert(toks_of(ts@) =~= ts0 + seq![t@]);
                match lex(cs@, k as int) {
                    Ok(rest) => assert(ts0 + (seq![t@] + rest) =~= toks_of(ts@) + rest),
                    Err(_) => {},
                }
            }
            i = k;
        }
    }
    assert(toks_of(ts@) + Seq::<Tok>::empty() =~= toks_of(ts@));
    Ok(ts)
}

/// Splits a filter string into tokens.
pub fn tokenize(input: &str) -> (r: Result<Vec<Token>, FilterError>)
    ensures
        match r {
            Ok(ts) => lex(input@, 0) == Ok::<Seq<Tok>, Fault>(toks_of(ts@)),
            Err(e) => lex(input@, 0) == Err::<Seq<Tok>, Fault>(e@),
        },
{
    let cs = chars_of(input);
    tokenize_chars(&cs)
}

/// `or := and ("||" and)*`: the expression that starts at `pos`, and the
/// position after it.
pub open spec fn p_or(t: Seq<Tok>, pos: int) -> Result<(Query, int), Fault>
    decreases t.len() - pos, 3int,
{
    if pos < 0 || pos > t.len() {
        Err(Fault::UnexpectedEnd)
    } else {
        match p_and(t, pos) {
            Ok((l, p)) => if pos <= p <= t.len() {
                or_rest(t, l, p)
            } else {
                Err(Fault::UnexpectedEnd)
            },
            Err(f) => Err(f),
        }
    }
}

/// The `("||" and)*` tail after `left`, folded to the left.
pub open spec fn or_rest(t: Seq<Tok>, left: Query, pos: int) -> Result<(Query, int), Fault>
    decreases t.len() - pos, 0int,
{
    if pos < 0 || pos >= t.len() || !(t[pos] is Or) {
        Ok((left, pos))
    } else {
        match p_and(t, pos + 1) {
            Ok((r, p)) => if pos < p <= t.len() {
                or_rest(t, Query::Or(Box::new(left), Box::new(r)), p)
            } else {
                Err(Fault::UnexpectedEnd)
            },
            Err(f) => Err(f),
        }
    }
}

/// `and := unary ("&&" unary)*`.
pub open spec fn p_and(t: Seq<Tok>, pos: int) -> Result<(Query, int), Fault>
    decreases t.len() - pos, 2int,
{
    if pos < 0 || pos > t.len() {
        Err(Fault::UnexpectedEnd)
    } else {
        match p_unary(t, pos) {
            Ok((l, p)) => if pos <= p <= t.len() {
                and_rest(t, l, p)
            } else {
                Err(Fault::UnexpectedEnd)
            },
            Err(f) => Err(f),
        }
    }
}

/// The `("&&" unary)*` tail after `left`, folded to the left.
pub open spec fn and_rest(t: Seq<Tok>, left: Query, pos: int) -> Result<(Query, int), Fault>
    decreases t.len() - pos, 0int,
{
    if pos < 0 || pos >= t.len() || !(t[pos] is And) {
        Ok((left, pos))
    } else {
        match p_unary(t, pos + 1) {
            Ok((r, p)) => if pos < p <= t.len() {
                and_rest(t, Query::And(Box::new(left), Box::new(r)), p)
            } else {
                Err(Fault::UnexpectedEnd)
            },
            Err(f) => Err(f),
        }
    }
}

/// `unary := "!" unary | primary`.
pub open spec fn p_unary(t: Seq<Tok>, pos: int) -> Result<(Query, int), Fault>
    decreases t.len() - pos, 1int,
{
    if pos < 0 || pos >= t.len() {
        Err(Fault::UnexpectedEnd)
    } else if t[pos] is Not {
        match p_unary(t, pos + 1) {
            Ok((e, p)) => Ok((Query::Not(Box::new(e)), p)),
            Err(f) => Err(f),
        }
    } else {
        p_primary(t, pos)
    }
}

/// `primary := "(" or ")" | atom`; an atom must compile as a regex.
pub open spec fn p_primary(t: Seq<Tok>, pos: int) -> Result<(Query, int), Fault>
    decreases t.len() - pos, 0int,
{
    if pos < 0 || pos >= t.len() {
        Err(Fault::UnexpectedEnd)
    } else {
        match t[pos] {
            Tok::LParen => match p_or(t, pos + 1) {
                Ok((e, p)) => if 0 <= p < t.len() && t[p] is RParen {
                    Ok((e, p + 1))
                } else {
                    Err(Fault::MissingClosingParen)
                },
                Err(f) => Err(f),
            },
            Tok::Atom(a) => if regex_compiles(a) {
                Ok((Query::Atom(a), pos + 1))
            } else {
                Err(Fault::InvalidRegex(a))
            },
            _ => Err(Fault::UnexpectedToken(pos)),
        }
    }
}

/// What a filter string means: the input is trimmed, must not be empty,
/// and its tokens must form one whole expression.
pub open spec fn parse_spec(input: Seq<char>) -> Result<Query, Fault> {
    let s = trim_chars(input);
    if s.len() == 0 {
        Err(Fault::EmptyExpression)
    } else {
        match lex(s, 0) {
            Err(f) => Err(f),
            Ok(t) => match p_or(t, 0) {
                Ok((e, p)) => if p == t.len() {
                    Ok(e)
                } else {
                    Err(Fault::UnexpectedToken(p))
                },
                Err(f) => Err(f),
            },
        }
    }
}

/// The result of a parse step, as contracts see it.
pub open spec fn step_view(r: Result<(FilterExpr, usize), FilterError>) -> Result<(Query, int), Fault> {
    match r {
        Ok((e, p)) => Ok((e@, p as int)),
        Err(f) => Err(f@),
    }
}

pub open spec fn advances(r: Result<(FilterExpr, usize), FilterError>, pos: int, len: int) -> bool {
    r matches Ok((_, p)) ==> pos < p <= len
}

fn parse_or(t: &Vec<Token>, pos: usize) -> (r: Result<(FilterExpr, usize), FilterError>)
    requires
        pos <= t@.len(),
    ensures
        step_view(r) == p_or(toks_of(t@), pos as int),
        advances(r, pos as int, t@.len() as int),
    decreases t@.len() - pos, 3int,
{
    let ghost ts = toks_of(t@);
    let (mut left, mut p) = match parse_and(t, pos) {
        Ok(x) => x,
        Err(f) => {
            return Err(f);
        },
    };
    while p < t.len() && matches!(t[p], Token::Or)
        invariant
            ts == toks_of(t@),
            pos < p <= t@.len(),
            p_or(ts, pos as int) == or_rest(ts, left@, p as int),
        decreases t@.len() - p,
    {
        assert(ts[p as int] is Or);
        let (right, np) = match parse_and(t, p + 1) {
            Ok(x) => x,
            Err(f) => {
                return Err(f);
            },
        };
        left = FilterExpr::Or(Box::new(left), Box::new(right));
        p = np;
    }
    proof {
        if p < t@.len() {
            assert(!(ts[p as int] is Or));
        }
    }
    Ok((left, p))
}

fn parse_and(t: &Vec<Token>, pos: usize) -> (r: Result<(FilterExpr, usize), FilterError>)
    requires
        pos <= t@.len(),
    ensures
        step_view(r) == p_and(toks_of(t@), pos as int),
        advances(r, pos as int, t@.len() as int),
    decreases t@.len() - pos, 2int,
{
    let ghost ts = toks_of(t@);
    let (mut left, mut p) = match parse_unary(t, pos) {
        Ok(x) => x,
        Err(f) => {
            return Err(f);
        },
    };
    while p < t.len() && matches!(t[p], Token::And)
        invariant
            ts == toks_of(t@),
            pos < p <= t@.len(),
            p_and(ts, pos as int) == and_rest(ts, left@, p as int),
        decreases t@.len() - p,
    {
        assert(ts[p as int] is And);
        let (right, np) = match parse_unary(t, p + 1) {
            Ok(x) => x,
            Err(f) => {
                return Err(f);
            },
        };
        left = FilterExpr::And(Box::new(left), Box::new(right));
        p = np;
    }
    proof {
        if p < t@.len() {
            assert(!(ts[p as int] is And));
        }
    }
    Ok((left, p))
}

fn parse_unary(t: &Vec<Token>, pos: usize) -> (r: Result<(FilterExpr, usize), FilterError>)
    requires
        pos <= t@.len(),
    ensures
        step_view(r) == p_unary(toks_of(t@), pos as int),
        advances(r, pos as int, t@.len() as int),
    decreases t@.len() - pos, 1int,
{
    let ghost ts = toks_of(t@);
    if pos >= t.len() {
        return Err(FilterError::UnexpectedEnd);
    }
    if matches!(t[pos], Token::Not) {
        assert(ts[pos as int] is Not);
        match parse_unary(t, pos + 1) {
            Ok((e, p)) => Ok((FilterExpr::Not(Box::new(e)), p)),
            Err(f) => Err(f),
        }
    } else {
        assert(!(ts[pos as int] is Not));
        parse_primary(t, pos)
    }
}

fn parse_primary(t: &Vec<Token>, pos: usize) -> (r: Result<(FilterExpr, usize), FilterError>)
    requires
        pos <= t@.len(),
    ensures
        step_view(r) == p_primary(toks_of(t@), pos as int),
        advances(r, pos as int, t@.len() as int),
    decreases t@.len() - pos, 0int,
{
    let ghost ts = toks_of(t@);
    if pos >= t.len() {
        return Err(FilterError::UnexpectedEnd);
    }
    assert(ts[pos as int] == t@[pos as int]@);
    match &t[pos] {
        Token::LParen => {
            match parse_or(t, pos + 1) {
                Ok((e, p)) => {
                    if p < t.len() && matches!(t[p], Token::RParen) {
                        assert(ts[p as int] is RParen);
                        Ok((e, p + 1))
                    } else {
                        proof {
                            if p < t@.len() {
                                assert(!(ts[p as int] is RParen));
                            }
                        }
                        Err(FilterError::MissingClosingParen)
                    }
                },
                Err(f) => Err(f),
            }
        },
        Token::Pattern(a) => {
            match compile(a.as_str()) {
                Ok(re) => Ok((FilterExpr::Pattern(re), pos + 1)),
                Err(msg) => Err(FilterError::InvalidRegex(a.clone(), msg)),
            }
        },
        _ => Err(FilterError::UnexpectedToken(pos)),
    }
}

/// Parses a filter string.
pub fn parse_filter(input: &str) -> (r: Result<FilterExpr, FilterError>)
    ensures
        match r {
            Ok(e) => parse_spec(input@) == Ok::<Query, Fault>(e@),
            Err(f) => parse_spec(input@) == Err::<Query, Fault>(f@),
        },
{
    let all = chars_of(input);
    let (a, b) = trim_bounds(&all);
    if a == b {
        return Err(FilterError::EmptyExpression);
    }
    let cs = slice_chars(&all, a, b);
    let tokens = match tokenize_chars(&cs) {
        Ok(ts) => ts,
        Err(f) => {
            return Err(f);
        },
    };
    match parse_or(&tokens, 0) {
        Ok((e, p)) => {
            if p == tokens.len() {
                Ok(e)
            } else {
                Err(FilterError::UnexpectedToken(p))
            }
        },
        Err(f) => Err(f),
    }
}

fn slice_chars(cs: &Vec<char>, from: usize, to: usize) -> (r: Vec<char>)
    requires
        from <= to <= cs@.len(),
    ensures
        r@ == cs@.subrange(from as int, to as int),
{
    let mut r: Vec<char> = Vec::new();
    let mut i = from;
    while i < to
        invariant
            from <= i <= to <= cs@.len(),
            r@ == cs@.subrange(from as int, i as int),
        decreases to - i,
    {
        r.push(cs[i]);
        i = i + 1;
    }
    r
}

/// True when byte `x` lies in the range.
pub open spec fn in_range(r: (usize, usize), x: int) -> bool {
    r.0 <= x < r.1
}

/// True when byte `x` lies in one of the ranges.
pub open spec fn covered(rs: Seq<(usize, usize)>, x: int) -> bool {
    exists|i: int| 0 <= i < rs.len() && (#[trigger] rs[i]).0 <= x < rs[i].1
}

/// Every range lies on char boundaries of `text`.
pub open spec fn ranges_fit(rs: Seq<(usize, usize)>, text: Seq<char>) -> bool {
    forall|i: int| 0 <= i < rs.len() ==> crate::pattern::is_byte_range_of(text, #[trigger] rs[i].0 as int, rs[i].1 as int)
}

pub open spec fn well_formed_ranges(rs: Seq<(usize, usize)>) -> bool {
    forall|i: int| 0 <= i < rs.len() ==> rs[i].0 <= rs[i].1
}

pub open spec fn sorted_by_start(rs: Seq<(usize, usize)>) -> bool {
    forall|i: int, j: int| 0 <= i < j < rs.len() ==> rs[i].0 <= rs[j].0
}

pub open spec fn has_gaps(r: Seq<(usize, usize)>) -> bool {
    forall|i: int| 0 <= i < r.len() - 1 ==> #[trigger] r[i].1 < r[i + 1].0
}

pub open spec fn inside(a: (usize, usize), b: (usize, usize)) -> bool {
    b.0 <= a.0 && a.1 <= b.1
}

/// The range `a` lies inside one of the ranges `r`.
pub open spec fn contained(r: Seq<(usize, usize)>, a: (usize, usize)) -> bool {
    exists|i: int| #![trigger r[i]] 0 <= i < r.len() && inside(a, r[i])
}

/// One of the ranges `m` starts at `x`.
pub open spec fn has_start(m: Seq<(usize, usize)>, x: usize) -> bool {
    exists|j: int| #![trigger m[j]] 0 <= j < m.len() && m[j].0 == x
}

/// Each range of `m` lies inside one range of `r`.
pub open spec fn holds_all(r: Seq<(usize, usize)>, m: Seq<(usize, usize)>) -> bool {
    forall|j: int| 0 <= j < m.len() ==> contained(r, #[trigger] m[j])
}

/// Each byte of a range of `r` lies in a range of `m`.
pub open spec fn only_covered(r: Seq<(usize, usize)>, m: Seq<(usize, usize)>) -> bool {
    forall|i: int, x: int| 0 <= i < r.len() && #[trigger] in_range(r[i], x) ==> covered(m, x)
}

/// Each range of `r` starts where a range of `m` starts.
pub open spec fn starts_from(r: Seq<(usize, usize)>, m: Seq<(usize, usize)>) -> bool {
    forall|i: int| 0 <= i < r.len() ==> has_start(m, #[trigger] r[i].0)
}

/// One of the ranges `m` ends at `x`.
pub open spec fn has_end(m: Seq<(usize, usize)>, x: usize) -> bool {
    exists|j: int| #![trigger m[j]] 0 <= j < m.len() && m[j].1 == x
}

/// Each range of `r` ends where a range of `m` ends.
pub open spec fn ends_from(r: Seq<(usize, usize)>, m: Seq<(usize, usize)>) -> bool {
    forall|i: int| 0 <= i < r.len() ==> has_end(m, #[trigger] r[i].1)
}

/// `r` is what merging the ranges `m` gives: ranges in order with a gap
/// between each two, each one of `m` inside one of `r` and every byte of `r`
/// inside one of `m`, each range of `r` starting where one of `m` starts.
pub open spec fn is_merge_of(r: Seq<(usize, usize)>, m: Seq<(usize, usize)>) -> bool {
    &&& well_formed_ranges(r)
    &&& has_gaps(r)
    &&& holds_all(r, m)
    &&& only_covered(r, m)
    &&& starts_from(r, m)
    &&& ends_from(r, m)
}

/// What holds of the merged ranges `out` after the first `read` ranges of `m`.
pub open spec fn merge_inv(out: Seq<(usize, usize)>, m: Seq<(usize, usize)>, read: int) -> bool {
    &&& out.len() >= 1
    &&& 0 < read <= m.len()
    &&& is_merge_of(out, m.subrange(0, read))
}

proof fn lemma_merge_start(m: Seq<(usize, usize)>)
    requires
        m.len() >= 1,
        well_formed_ranges(m),
    ensures
        merge_inv(seq![m[0]], m, 1),
{
    let out = seq![m[0]];
    let p = m.subrange(0, 1);
    assert(inside(p[0], out[0]));
    assert(contained(out, p[0]));
    assert forall|i: int, x: int| 0 <= i < out.len() && #[trigger] in_range(out[i], x) implies covered(p, x) by {
        assert(in_range(p[0], x));
    }
    assert(p[0].0 == out[0].0);
    assert(has_start(p, out[0].0));
    assert(has_end(p, out[0].1));
}

proof fn lemma_ends_extend(out: Seq<(usize, usize)>, p: Seq<(usize, usize)>, c: (usize, usize), e: usize)
    requires
        ends_from(out, p),
        out.len() >= 1,
        e == out.last().1 || e == c.1,
    ensures
        ends_from(out.update(out.len() - 1, (out.last().0, e)), p.push(c)),
{
    let li = out.len() - 1;
    let new = out.update(li, (out.last().0, e));
    let q = p.push(c);
    assert forall|i: int| 0 <= i < new.len() implies has_end(q, #[trigger] new[i].1) by {
        if i == li && e == c.1 {
            assert(q[p.len() as int].1 == new[i].1);
        } else {
            assert(out[i].1 == new[i].1);
            let j = choose|j: int| #![trigger p[j]] 0 <= j < p.len() && p[j].1 == out[i].1;
            assert(q[j] == p[j]);
        }
    }
}

proof fn lemma_ends_push(out: Seq<(usize, usize)>, p: Seq<(usize, usize)>, c: (usize, usize))
    requires
        ends_from(out, p),
    ensures
        ends_from(out.push(c), p.push(c)),
{
    let new = out.push(c);
    let q = p.push(c);
    assert forall|i: int| 0 <= i < new.len() implies has_end(q, #[trigger] new[i].1) by {
        if i == out.len() {
            assert(q[p.len() as int].1 == new[i].1);
        } else {
            assert(out[i].1 == new[i].1);
            let j = choose|j: int| #![trigger p[j]] 0 <= j < p.len() && p[j].1 == out[i].1;
            assert(q[j] == p[j]);
        }
    }
}

proof fn lemma_holds_extend(out: Seq<(usize, usize)>, p: Seq<(usize, usize)>, c: (usize, usize), e: usize)
    requires
        out.len() >= 1,
        holds_all(out, p),
        out.last().0 <= c.0,
        out.last().1 <= e,
        c.1 <= e,
    ensures
        holds_all(out.update(out.len() - 1, (out.last().0, e)), p.push(c)),
{
    let li = out.len() - 1;
    let new = out.update(li, (out.last().0, e));
    let q = p.push(c);
    assert forall|j: int| 0 <= j < q.len() implies contained(new, #[trigger] q[j]) by {
        if j < p.len() {
            assert(q[j] == p[j]);
            let i = choose|i: int| #![trigger out[i]] 0 <= i < out.len() && inside(p[j], out[i]);
            assert(inside(q[j], new[i]));
        } else {
            assert(inside(q[j], new[li]));
        }
    }
}

proof fn lemma_covered_push(m: Seq<(usize, usize)>, c: (usize, usize), x: int)
    requires
        covered(m, x),
    ensures
        covered(m.push(c), x),
{
    let k = choose|k: int| 0 <= k < m.len() && (#[trigger] m[k]).0 <= x < m[k].1;
    assert(m.push(c)[k] == m[k]);
}

proof fn lemma_only_extend(out: Seq<(usize, usize)>, p: Seq<(usize, usize)>, c: (usize, usize), e: usize)
    requires
        out.len() >= 1,
        only_covered(out, p),
        c.0 <= out.last().1,
        e == if c.1 > out.last().1 { c.1 } else { out.last().1 },
    ensures
        only_covered(out.update(out.len() - 1, (out.last().0, e)), p.push(c)),
{
    let li = out.len() - 1;
    let new = out.update(li, (out.last().0, e));
    let q = p.push(c);
    assert forall|i: int, x: int| 0 <= i < new.len() && #[trigger] in_range(new[i], x) implies covered(q, x) by {
        if i == li && x >= out.last().1 {
            assert(q[p.len() as int] == c);
            assert(in_range(q[p.len() as int], x));
        } else {
            assert(in_range(out[i], x));
            lemma_covered_push(p, c, x);
        }
    }
}

proof fn lemma_starts_extend(out: Seq<(usize, usize)>, p: Seq<(usize, usize)>, c: (usize, usize), e: usize)
    requires
        starts_from(out, p),
        out.len() >= 1,
    ensures
        starts_from(out.update(out.len() - 1, (out.last().0, e)), p.push(c)),
{
    let new = out.update(out.len() - 1, (out.last().0, e));
    let q = p.push(c);
    assert forall|i: int| 0 <= i < new.len() implies has_start(q, #[trigger] new[i].0) by {
        assert(out[i].0 == new[i].0);
        let j = choose|j: int| #![trigger p[j]] 0 <= j < p.len() && p[j].0 == out[i].0;
        assert(q[j] == p[j]);
    }
}

proof fn lemma_merge_extend(out: Seq<(usize, usize)>, m: Seq<(usize, usize)>, read: int, e: usize)
    requires
        0 < read < m.len(),
        well_formed_ranges(m),
        sorted_by_start(m),
        merge_inv(out, m, read),
        m[read].0 <= out.last().1,
        e == if m[read].1 > out.last().1 { m[read].1 } else { out.last().1 },
    ensures
        merge_inv(out.update(out.len() - 1, (out.last().0, e)), m, read + 1),
{
    let p = m.subrange(0, read);
    let c = m[read];
    assert(m.subrange(0, read + 1) =~= p.push(c));
    let li = out.len() - 1;
    let new = out.update(li, (out.last().0, e));
    let j0 = choose|j: int| #![trigger p[j]] 0 <= j < p.len() && p[j].0 == out[li].0;
    assert(p[j0] == m[j0]);
    lemma_holds_extend(out, p, c, e);
    lemma_only_extend(out, p, c, e);
    lemma_starts_extend(out, p, c, e);
    lemma_ends_extend(out, p, c, e);
    lemma_gaps_extend(out, e);
}

proof fn lemma_gaps_extend(out: Seq<(usize, usize)>, e: usize)
    requires
        out.len() >= 1,
        well_formed_ranges(out),
        has_gaps(out),
        out.last().1 <= e,
    ensures
        well_formed_ranges(out.update(out.len() - 1, (out.last().0, e))),
        has_gaps(out.update(out.len() - 1, (out.last().0, e))),
{
    let new = out.update(out.len() - 1, (out.last().0, e));
    assert forall|i: int| 0 <= i < new.len() - 1 implies #[trigger] new[i].1 < new[i + 1].0 by {
        assert(out[i].1 < out[i + 1].0);
    }
}

proof fn lemma_holds_push(out: Seq<(usize, usize)>, p: Seq<(usize, usize)>, c: (usize, usize))
    requires
        holds_all(out, p),
    ensures
        holds_all(out.push(c), p.push(c)),
{
    let new = out.push(c);
    let q = p.push(c);
    assert forall|j: int| 0 <= j < q.len() implies contained(new, #[trigger] q[j]) by {
        if j < p.len() {
            assert(q[j] == p[j]);
            let i = choose|i: int| #![trigger out[i]] 0 <= i < out.len() && inside(p[j], out[i]);
            assert(inside(q[j], new[i]));
        } else {
            assert(inside(q[j], new[out.len() as int]));
        }
    }
}

proof fn lemma_only_push(out: Seq<(usize, usize)>, p: Seq<(usize, usize)>, c: (usize, usize))
    requires
        only_covered(out, p),
    ensures
        only_covered(out.push(c), p.push(c)),
{
    let new = out.push(c);
    let q = p.push(c);
    assert forall|i: int, x: int| 0 <= i < new.len() && #[trigger] in_range(new[i], x) implies covered(q, x) by {
        if i == out.len() {
            assert(in_range(q[p.len() as int], x));
        } else {
            assert(in_range(out[i], x));
            lemma_covered_push(p, c, x);
        }
    }
}

proof fn lemma_starts_push(out: Seq<(usize, usize)>, p: Seq<(usize, usize)>, c: (usize, usize))
    requires
        starts_from(out, p),
    ensures
        starts_from(out.push(c), p.push(c)),
{
    let new = out.push(c);
    let q = p.push(c);
    assert forall|i: int| 0 <= i < new.len() implies has_start(q, #[trigger] new[i].0) by {
        if i == out.len() {
            assert(q[p.len() as int].0 == new[i].0);
        } else {
            assert(out[i].0 == new[i].0);
            let j = choose|j: int| #![trigger p[j]] 0 <= j < p.len() && p[j].0 == out[i].0;
            assert(q[j] == p[j]);
        }
    }
}

proof fn lemma_merge_push(out: Seq<(usize, usize)>, m: Seq<(usize, usize)>, read: int)
    requires
        0 < read < m.len(),
        well_formed_ranges(m),
        merge_inv(out, m, read),
        m[read].0 > out.last().1,
    ensures
        merge_inv(out.push(m[read]), m, read + 1),
{
    let p = m.subrange(0, read);
    let c = m[read];
    assert(m.subrange(0, read + 1) =~= p.push(c));
    lemma_holds_push(out, p, c);
    lemma_only_push(out, p, c);
    lemma_starts_push(out, p, c);
    lemma_ends_push(out, p, c);
    lemma_gaps_push(out, c);
}

proof fn lemma_gaps_push(out: Seq<(usize, usize)>, c: (usize, usize))
    requires
        out.len() >= 1,
        well_formed_ranges(out),
        has_gaps(out),
        c.0 > out.last().1,
        c.0 <= c.1,
    ensures
        well_formed_ranges(out.push(c)),
        has_gaps(out.push(c)),
{
    let new = out.push(c);
    assert forall|i: int| 0 <= i < new.len() - 1 implies #[trigger] new[i].1 < new[i + 1].0 by {
        if i < out.len() - 1 {
            assert(out[i].1 < out[i + 1].0);
        }
    }
}

proof fn lemma_merge_done(out: Seq<(usize, usize)>, m: Seq<(usize, usize)>)
    requires
        merge_inv(out, m, m.len() as int),
    ensures
        is_merge_of(out, m),
{
    assert(m.subrange(0, m.len() as int) =~= m);
}

/// Merges overlapping or touching ranges of a list sorted by start.
pub fn merge_overlapping(ranges: &mut Vec<(usize, usize)>)
    requires
        well_formed_ranges(old(ranges)@),
        sorted_by_start(old(ranges)@),
    ensures
        is_merge_of(final(ranges)@, old(ranges)@),
{
    let ghost m = ranges@;
    let n = ranges.len();
    if n == 0 {
        return;
    }
    let mut out: Vec<(usize, usize)> = Vec::new();
    out.push(ranges[0]);
    proof {
        assert(out@ =~= seq![m[0]]);
        lemma_merge_start(m);
    }
    let mut read: usize = 1;
    while read < n
        invariant
            m == ranges@,
            n == m.len(),
            1 <= read <= n,
            well_formed_ranges(m),
            sorted_by_start(m),
            merge_inv(out@, m, read as int),
        decreases n - read,
    {
        let cur = ranges[read];
        let li = out.len() - 1;
        let last = out[li];
        if cur.0 <= last.1 {
            let e = if cur.1 > last.1 { cur.1 } else { last.1 };
            proof {
                lemma_merge_extend(out@, m, read as int, e);
            }
            out.set(li, (last.0, e));
        } else {
            proof {
                lemma_merge_push(out@, m, read as int);
            }
            out.push(cur);
        }
        read = read + 1;
    }
    proof {
        lemma_merge_done(out@, m);
    }
    *ranges = out;
}

proof fn lemma_insert_sorted(r: Seq<(usize, usize)>, pos: int, x: (usize, usize))
    requires
        0 <= pos <= r.len(),
        sorted_by_start(r),
        pos > 0 ==> r[pos - 1].0 <= x.0,
        forall|i: int| pos <= i < r.len() ==> r[i].0 > x.0,
    ensures
        sorted_by_start(r.insert(pos, x)),
{
    let s = r.insert(pos, x);
    assert forall|i: int, j: int| 0 <= i < j < s.len() implies s[i].0 <= s[j].0 by {
        if j < pos {
        } else if j == pos {
            if i < pos {
                assert(r[i].0 <= r[pos - 1].0);
            }
        } else if i < pos {
            assert(r[i].0 <= r[j - 1].0);
        } else if i == pos {
            assert(r[j - 1].0 > x.0);
        } else {
            assert(r[i - 1].0 <= r[j - 1].0);
        }
    }
}

/// The ranges of `v`, stably sorted by start.
fn sort_by_start(v: &Vec<(usize, usize)>) -> (r: Vec<(usize, usize)>)
    ensures
        sorted_by_start(r@),
        r@.to_multiset() == v@.to_multiset(),
{
    broadcast use vstd::seq_lib::group_to_multiset_ensures;

    let mut r: Vec<(usize, usize)> = Vec::new();
    let mut k: usize = 0;
    while k < v.len()
        invariant
            k <= v@.len(),
            sorted_by_start(r@),
            r@.to_multiset() == v@.subrange(0, k as int).to_multiset(),
        decreases v@.len() - k,
    {
        let x = v[k];
        let mut pos = r.len();
        while pos > 0 && r[pos - 1].0 > x.0
            invariant
                pos <= r@.len(),
                sorted_by_start(r@),
                forall|i: int| pos <= i < r@.len() ==> r@[i].0 > x.0,
            decreases pos,
        {
            pos = pos - 1;
        }
        proof {
            lemma_insert_sorted(r@, pos as int, x);
            vstd::seq_lib::to_multiset_insert(r@, pos as int, x);
            vstd::seq_lib::to_multiset_build(v@.subrange(0, k as int), x);
            assert(v@.subrange(0, k + 1) =~= v@.subrange(0, k as int).push(x));
        }
        r.insert(pos, x);
        k = k + 1;
    }
    assert(v@.subrange(0, v@.len() as int) =~= v@);
    r
}

proof fn lemma_merge_transfer(r: Seq<(usize, usize)>, s: Seq<(usize, usize)>, m: Seq<(usize, usize)>)
    requires
        is_merge_of(r, s),
        s.to_multiset() == m.to_multiset(),
    ensures
        is_merge_of(r, m),
{
    lemma_transfer_holds(r, s, m);
    lemma_transfer_covered(r, s, m);
    lemma_transfer_starts(r, s, m);
    lemma_transfer_ends(r, s, m);
}

proof fn lemma_transfer_holds(r: Seq<(usize, usize)>, s: Seq<(usize, usize)>, m: Seq<(usize, usize)>)
    requires
        holds_all(r, s),
        s.to_multiset() == m.to_multiset(),
    ensures
        holds_all(r, m),
{
    assert forall|j: int| 0 <= j < m.len() implies contained(r, #[trigger] m[j]) by {
        assert(m.contains(m[j]));
        lemma_same_elements(m, s, m[j]);
        let k = choose|k: int| #![trigger s[k]] 0 <= k < s.len() && s[k] == m[j];
        let i = choose|i: int| #![trigger r[i]] 0 <= i < r.len() && inside(s[k], r[i]);
        assert(inside(m[j], r[i]));
    }
}

proof fn lemma_transfer_covered(r: Seq<(usize, usize)>, s: Seq<(usize, usize)>, m: Seq<(usize, usize)>)
    requires
        only_covered(r, s),
        s.to_multiset() == m.to_multiset(),
    ensures
        only_covered(r, m),
{
    assert forall|i: int, x: int| 0 <= i < r.len() && #[trigger] in_range(r[i], x) implies covered(m, x) by {
        assert(covered(s, x));
        let k = choose|k: int| 0 <= k < s.len() && (#[trigger] s[k]).0 <= x < s[k].1;
        assert(s.contains(s[k]));
        lemma_same_elements(s, m, s[k]);
        let j = choose|j: int| #![trigger m[j]] 0 <= j < m.len() && m[j] == s[k];
        assert(0 <= j < m.len() && (#[trigger] m[j]).0 <= x < m[j].1);
    }
}

proof fn lemma_transfer_starts(r: Seq<(usize, usize)>, s: Seq<(usize, usize)>, m: Seq<(usize, usize)>)
    requires
        starts_from(r, s),
        s.to_multiset() == m.to_multiset(),
    ensures
        starts_from(r, m),
{
    assert forall|i: int| 0 <= i < r.len() implies has_start(m, #[trigger] r[i].0) by {
        let k = choose|k: int| #![trigger s[k]] 0 <= k < s.len() && s[k].0 == r[i].0;
        assert(s.contains(s[k]));
        lemma_same_elements(s, m, s[k]);
        let j = choose|j: int| #![trigger m[j]] 0 <= j < m.len() && m[j] == s[k];
        assert(m[j].0 == r[i].0);
    }
}

proof fn lemma_transfer_ends(r: Seq<(usize, usize)>, s: Seq<(usize, usize)>, m: Seq<(usize, usize)>)
    requires
        ends_from(r, s),
        s.to_multiset() == m.to_multiset(),
    ensures
        ends_from(r, m),
{
    assert forall|i: int| 0 <= i < r.len() implies has_end(m, #[trigger] r[i].1) by {
        let k = choose|k: int| #![trigger s[k]] 0 <= k < s.len() && s[k].1 == r[i].1;
        assert(s.contains(s[k]));
        lemma_same_elements(s, m, s[k]);
        let j = choose|j: int| #![trigger m[j]] 0 <= j < m.len() && m[j] == s[k];
        assert(m[j].1 == r[i].1);
    }
}

/// An element of `a` is an element of `b` when both hold the same multiset.
proof fn lemma_same_elements(a: Seq<(usize, usize)>, b: Seq<(usize, usize)>, x: (usize, usize))
    requires
        a.to_multiset() == b.to_multiset(),
        a.contains(x),
    ensures
        exists|k: int| 0 <= k < b.len() && b[k] == x,
{
    vstd::seq_lib::to_multiset_contains(a, x);
    vstd::seq_lib::to_multiset_contains(b, x);
}

impl FilterExpr {
    fn collect_matches(&self, text: &str, matches: &mut Vec<(usize, usize)>)
        requires
            well_formed_ranges(old(matches)@),
            ranges_fit(old(matches)@, text@),
        ensures
            final(matches)@ == old(matches)@ + leaf_matches(self@, text@),
            well_formed_ranges(final(matches)@),
            ranges_fit(final(matches)@, text@),
        decreases self,
    {
        match self {
            FilterExpr::Pattern(p) => {
                let found = find_all(p, text);
                let ghost before = matches@;
                let mut i: usize = 0;
                while i < found.len()
                    invariant
                        i <= found@.len(),
                        well_formed_ranges(before),
                        crate::pattern::are_match_ranges_of(found@, text@),
                        matches@ == before + found@.subrange(0, i as int),
                        well_formed_ranges(matches@),
                        ranges_fit(before, text@),
                        ranges_fit(matches@, text@),
                    decreases found@.len() - i,
                {
                    matches.push(found[i]);
                    i = i + 1;
                }
                assert(found@.subrange(0, found@.len() as int) =~= found@);
            },
            FilterExpr::And(a, b) | FilterExpr::Or(a, b) => {
                let ghost before = matches@;
                a.collect_matches(text, matches);
                b.collect_matches(text, matches);
                assert(matches@ =~= before + (leaf_matches(a@, text@) + leaf_matches(b@, text@)));
            },
            FilterExpr::Not(a) => {
                a.collect_matches(text, matches);
            },
        }
    }

    /// The matches of every atom (`Not` included), sorted and with
    /// overlapping or touching ranges merged.
    pub fn find_all_matches(&self, text: &str) -> (r: Vec<(usize, usize)>)
        ensures
            is_merge_of(r@, leaf_matches(self@, text@)),
            ranges_fit(r@, text@),
    {
        let mut found: Vec<(usize, usize)> = Vec::new();
        self.collect_matches(text, &mut found);
        assert(found@ =~= leaf_matches(self@, text@));
        let mut sorted = sort_by_start(&found);
        proof {
            assert forall|i: int| 0 <= i < sorted@.len() implies sorted@[i].0 <= sorted@[i].1 by {
                assert(sorted@.contains(sorted@[i]));
                lemma_same_elements(sorted@, found@, sorted@[i]);
            }
        }
        let ghost s = sorted@;
        merge_overlapping(&mut sorted);
        proof {
            lemma_merge_transfer(sorted@, s, found@);
            assert forall|i: int| 0 <= i < sorted@.len() implies crate::pattern::is_byte_range_of(text@, #[trigger] sorted@[i].0 as int, sorted@[i].1 as int) by {
                let j = choose|j: int| #![trigger found@[j]] 0 <= j < found@.len() && found@[j].0 == sorted@[i].0;
                let k = choose|k: int| #![trigger found@[k]] 0 <= k < found@.len() && found@[k].1 == sorted@[i].1;
                assert(crate::pattern::is_byte_range_of(text@, found@[j].0 as int, found@[j].1 as int));
                assert(crate::pattern::is_byte_range_of(text@, found@[k].0 as int, found@[k].1 as int));
            }
        }
        sorted
    }
}

} // verus!
