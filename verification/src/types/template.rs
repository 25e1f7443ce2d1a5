//! Template expressions: `'literal'`, `variable`, `func(arg, ...)`.
use vstd::prelude::*;
use vstd::string::*;
use crate::text::{
    char_is_alphanumeric, char_is_whitespace, is_alphanumeric, is_whitespace, str_chars, string_from_chars,
    sub_chars, substring,
};

verus! {

/// A template expression that can be evaluated.
#[derive(Debug, PartialEq)]
pub enum Expr {
    /// A literal string value
    Literal(String),
    /// A variable reference
    Var(String),
    /// A function call with name and arguments
    Func { name: String, args: Vec<Expr> },
}

/// Mathematical form of an expression.
pub enum ExprModel {
    Lit(Seq<char>),
    Var(Seq<char>),
    Func(Seq<char>, Seq<ExprModel>),
}

impl Expr {
    pub open spec fn model(self) -> ExprModel
        decreases self,
    {
        match self {
            Expr::Literal(s) => ExprModel::Lit(s@),
            Expr::Var(s) => ExprModel::Var(s@),
            Expr::Func { name, args } => {
                proof {
                    assert(decreases_to!(self => args));
                }
                ExprModel::Func(name@, Expr::models(args@))
            },
        }
    }

    pub open spec fn models(s: Seq<Expr>) -> Seq<ExprModel>
        decreases s,
    {
        if s.len() == 0 {
            Seq::empty()
        } else {
            Expr::models(s.drop_last()).push(s.last().model())
        }
    }
}

// ---------------------------------------------------------------------------
// The grammar, as a recursive-descent reading of a character sequence.
// Positions are indexes into `s`; every function returns the expression read
// and the position after it.
// ---------------------------------------------------------------------------

/// First position at or after `i` that does not hold whitespace.
pub open spec fn skip_ws(s: Seq<char>, i: int) -> int
    decreases s.len() - i,
{
    if 0 <= i < s.len() && char_is_whitespace(s[i]) {
        skip_ws(s, i + 1)
    } else {
        i
    }
}

/// Characters allowed in a variable or function name.
pub open spec fn is_name_char(c: char) -> bool {
    char_is_alphanumeric(c) || c == '_' || c == '-'
}

/// Characters that can start a variable or function name.
pub open spec fn is_name_start(c: char) -> bool {
    ('a' <= c <= 'z') || ('A' <= c <= 'Z') || c == '_' || c == '-'
}

/// Characters that open a literal.
pub open spec fn is_quote(c: char) -> bool {
    c == '\'' || c == '"'
}

/// End of the name that starts at `i`.
pub open spec fn name_end(s: Seq<char>, i: int) -> int
    decreases s.len() - i,
{
    if 0 <= i < s.len() && is_name_char(s[i]) {
        name_end(s, i + 1)
    } else {
        i
    }
}

/// Position of the first `q` at or after `i`, or the end of `s`.
pub open spec fn find_char(s: Seq<char>, i: int, q: char) -> int
    decreases s.len() - i,
{
    if 0 <= i < s.len() && s[i] != q {
        find_char(s, i + 1, q)
    } else {
        i
    }
}


pub proof fn lemma_skip_ws(s: Seq<char>, i: int)
    requires
        0 <= i <= s.len(),
    ensures
        i <= skip_ws(s, i) <= s.len(),
        skip_ws(s, i) < s.len() ==> !char_is_whitespace(s[skip_ws(s, i)]),
        forall|k: int| i <= k < skip_ws(s, i) ==> char_is_whitespace(#[trigger] s[k]),
    decreases s.len() - i,
{
    if i < s.len() && char_is_whitespace(s[i]) {
        lemma_skip_ws(s, i + 1);
    }
}

pub proof fn lemma_name_end(s: Seq<char>, i: int)
    requires
        0 <= i <= s.len(),
    ensures
        i <= name_end(s, i) <= s.len(),
        name_end(s, i) < s.len() ==> !is_name_char(s[name_end(s, i)]),
        forall|k: int| i <= k < name_end(s, i) ==> is_name_char(#[trigger] s[k]),
    decreases s.len() - i,
{
    if i < s.len() && is_name_char(s[i]) {
        lemma_name_end(s, i + 1);
    }
}

pub proof fn lemma_find_char(s: Seq<char>, i: int, q: char)
    requires
        0 <= i <= s.len(),
    ensures
        i <= find_char(s, i, q) <= s.len(),
        find_char(s, i, q) < s.len() ==> s[find_char(s, i, q)] == q,
        forall|k: int| i <= k < find_char(s, i, q) ==> #[trigger] s[k] != q,
    decreases s.len() - i,
{
    if i < s.len() && s[i] != q {
        lemma_find_char(s, i + 1, q);
    }
}

/// A literal opened by the quote at `i`; it ends at the same quote or at the end of input.
pub open spec fn sp_literal(s: Seq<char>, i: int) -> (ExprModel, int) {
    let e = find_char(s, i + 1, s[i]);
    (ExprModel::Lit(s.subrange(i + 1, e)), if e < s.len() { e + 1 } else { e })
}

/// An expression starting at `i` (after leading whitespace).
pub open spec fn sp_expr(s: Seq<char>, i: int) -> Option<(ExprModel, int)>
    decreases s.len() - i, 2int,
{
    if i < 0 || i > s.len() {
        None
    } else {
        let j = skip_ws(s, i);
        proof {
            lemma_skip_ws(s, i);
        }
        if j < s.len() && is_quote(s[j]) {
            Some(sp_literal(s, j))
        } else if j < s.len() && is_name_start(s[j]) {
            sp_name(s, j)
        } else {
            None
        }
    }
}

/// A variable, or a function call when the name is followed by `(`.
pub open spec fn sp_name(s: Seq<char>, i: int) -> Option<(ExprModel, int)>
    decreases s.len() - i, 1int,
{
    if i < 0 || i >= s.len() {
        None
    } else {
        let e = name_end(s, i);
        let name = s.subrange(i, e);
        let j = skip_ws(s, e);
        proof {
            lemma_name_end(s, i);
            lemma_skip_ws(s, e);
        }
        if j < s.len() && s[j] == '(' {
            if name.contains('-') {
                None
            } else {
                match sp_args(s, j + 1, Seq::empty()) {
                    Some((args, k)) => Some((ExprModel::Func(name, args), k)),
                    None => None,
                }
            }
        } else {
            Some((ExprModel::Var(name), j))
        }
    }
}

/// The arguments of a call, from position `p` (after `(`) up to and including `)`.
/// Commas between arguments are optional; text that is not an argument fails the parse.
pub open spec fn sp_args(s: Seq<char>, p: int, acc: Seq<ExprModel>) -> Option<(Seq<ExprModel>, int)>
    decreases s.len() - p, 3int,
{
    if p < 0 || p > s.len() {
        None
    } else {
        let q = skip_ws(s, p);
        proof {
            lemma_skip_ws(s, p);
        }
        if q < s.len() && s[q] == ')' {
            Some((acc, q + 1))
        } else {
            let (acc2, q2) = match sp_expr(s, q) {
                Some((e, k)) => (acc.push(e), k),
                None => (acc, q),
            };
            let q3 = skip_ws(s, q2);
            let q4 = if q3 < s.len() && s[q3] == ',' { q3 + 1 } else { q3 };
            if p < q4 <= s.len() {
                sp_args(s, q4, acc2)
            } else {
                None
            }
        }
    }
}

/// The expression that a whole input denotes, if any.
pub open spec fn spec_parse_expression(s: Seq<char>) -> Option<ExprModel> {
    match sp_expr(s, 0) {
        Some((e, k)) => if skip_ws(s, k) == s.len() { Some(e) } else { None },
        None => None,
    }
}

// ---------------------------------------------------------------------------
// Executable parser.
// ---------------------------------------------------------------------------

pub proof fn lemma_models_push(s: Seq<Expr>, e: Expr)
    ensures
        Expr::models(s.push(e)) == Expr::models(s).push(e.model()),
{
    assert(s.push(e).drop_last() =~= s);
}

/// Skips whitespace from `pos`.
pub fn skip_whitespace(chars: &Vec<char>, pos: usize) -> (r: usize)
    requires
        pos <= chars.len(),
    ensures
        r as int == skip_ws(chars@, pos as int),
        pos <= r <= chars.len(),
{
    let mut i = pos;
    while i < chars.len() && is_whitespace(chars[i])
        invariant
            pos <= i <= chars.len(),
            skip_ws(chars@, i as int) == skip_ws(chars@, pos as int),
        decreases chars.len() - i,
    {
        i = i + 1;
    }
    i
}

fn scan_name(chars: &Vec<char>, pos: usize) -> (r: usize)
    requires
        pos <= chars.len(),
    ensures
        r as int == name_end(chars@, pos as int),
        pos <= r <= chars.len(),
{
    let mut i = pos;
    while i < chars.len() && (is_alphanumeric(chars[i]) || chars[i] == '_' || chars[i] == '-')
        invariant
            pos <= i <= chars.len(),
            name_end(chars@, i as int) == name_end(chars@, pos as int),
        decreases chars.len() - i,
    {
        i = i + 1;
    }
    i
}

fn scan_to(chars: &Vec<char>, pos: usize, q: char) -> (r: usize)
    requires
        pos <= chars.len(),
    ensures
        r as int == find_char(chars@, pos as int, q),
        pos <= r <= chars.len(),
{
    let mut i = pos;
    while i < chars.len() && chars[i] != q
        invariant
            pos <= i <= chars.len(),
            find_char(chars@, i as int, q) == find_char(chars@, pos as int, q),
        decreases chars.len() - i,
    {
        i = i + 1;
    }
    i
}

fn contains_between(chars: &Vec<char>, from: usize, to: usize, c: char) -> (b: bool)
    requires
        from <= to <= chars.len(),
    ensures
        b == chars@.subrange(from as int, to as int).contains(c),
{
    let mut i = from;
    while i < to
        invariant
            from <= i <= to <= chars.len(),
            forall|k: int| from <= k < i ==> chars@[k] != c,
        decreases to - i,
    {
        if chars[i] == c {
            assert(chars@.subrange(from as int, to as int)[i - from] == c);
            return true;
        }
        i = i + 1;
    }
    assert forall|k: int| 0 <= k < to - from implies chars@.subrange(from as int, to as int)[k] != c by {
        assert(chars@[from + k] != c);
    }
    false
}

fn parse_literal(chars: &Vec<char>, pos: usize) -> (r: (Expr, usize))
    requires
        pos < chars.len(),
    ensures
        (r.0.model(), r.1 as int) == sp_literal(chars@, pos as int),
{
    let quote = chars[pos];
    let e = scan_to(chars, pos + 1, quote);
    let val = substring(chars, pos + 1, e);
    let next = if e < chars.len() { e + 1 } else { e };
    (Expr::Literal(val), next)
}

fn parse_expr(chars: &Vec<char>, pos: usize) -> (r: Option<(Expr, usize)>)
    requires
        pos <= chars.len(),
    ensures
        match r {
            Some((e, k)) => sp_expr(chars@, pos as int) == Some((e.model(), k as int)) && k <= chars.len(),
            None => sp_expr(chars@, pos as int).is_none(),
        },
    decreases chars.len() - pos, 2int,
{
    let j = skip_whitespace(chars, pos);
    if j < chars.len() && (chars[j] == '\'' || chars[j] == '"') {
        let (e, k) = parse_literal(chars, j);
        proof { lemma_find_char(chars@, j + 1, chars@[j as int]); }
        Some((e, k))
    } else if j < chars.len() && (('a' <= chars[j] && chars[j] <= 'z') || ('A' <= chars[j] && chars[j] <= 'Z')
        || chars[j] == '_' || chars[j] == '-') {
        parse_func_or_var(chars, j)
    } else {
        None
    }
}

fn parse_func_or_var(chars: &Vec<char>, pos: usize) -> (r: Option<(Expr, usize)>)
    requires
        pos < chars.len(),
    ensures
        match r {
            Some((e, k)) => sp_name(chars@, pos as int) == Some((e.model(), k as int)) && k <= chars.len(),
            None => sp_name(chars@, pos as int).is_none(),
        },
    decreases chars.len() - pos, 1int,
{
    let ghost s = chars@;
    let e = scan_name(chars, pos);
    let j = skip_whitespace(chars, e);
    if j < chars.len() && chars[j] == '(' {
        if contains_between(chars, pos, e, '-') {
            return None;
        }
        let name = substring(chars, pos, e);
        let mut args: Vec<Expr> = Vec::new();
        let mut p = j + 1;
        let ghost p0 = p as int;
        assert(Expr::models(args@) =~= Seq::<ExprModel>::empty());
        loop
            invariant
                pos < p0 <= p <= chars.len(),
                s == chars@,
                p0 == j + 1,
                j < chars.len(),
                name@ == s.subrange(pos as int, e as int),
                !s.subrange(pos as int, e as int).contains('-'),
                e as int == name_end(s, pos as int),
                j as int == skip_ws(s, e as int),
                s[j as int] == '(',
                sp_args(s, p0, Seq::empty()) == sp_args(s, p as int, Expr::models(args@)),
            decreases chars.len() - p,
        {
            let q = skip_whitespace(chars, p);
            if q < chars.len() && chars[q] == ')' {
                let ghost m = Expr::models(args@);
                let res = Expr::Func { name, args };
                assert(res.model() == ExprModel::Func(s.subrange(pos as int, e as int), m));
                return Some((res, q + 1));
            }
            let ghost acc0 = Expr::models(args@);
            let r = parse_expr(chars, q);
            let q2 = match r {
                Some((ex, k)) => {
                    proof { lemma_models_push(args@, ex); }
                    args.push(ex);
                    k
                },
                None => q,
            };
            let q3 = skip_whitespace(chars, q2);
            let q4 = if q3 < chars.len() && chars[q3] == ',' { q3 + 1 } else { q3 };
            if q4 <= p {
                return None;
            }
            p = q4;
        }
    } else {
        let name = substring(chars, pos, e);
        Some((Expr::Var(name), j))
    }
}

/// Parses a whole character sequence as one expression.
pub fn parse_expression_chars(chars: &Vec<char>) -> (r: Option<Expr>)
    ensures
        match r {
            Some(e) => spec_parse_expression(chars@) == Some(e.model()),
            None => spec_parse_expression(chars@).is_none(),
        },
{
    match parse_expr(chars, 0) {
        Some((e, k)) => {
            let end = skip_whitespace(chars, k);
            if end == chars.len() {
                Some(e)
            } else {
                None
            }
        },
        None => None,
    }
}

/// Parses a template expression string into an `Expr`.
pub fn parse_expression(input: &str) -> (r: Option<Expr>)
    ensures
        match r {
            Some(e) => spec_parse_expression(input@) == Some(e.model()),
            None => spec_parse_expression(input@).is_none(),
        },
{
    let chars = str_chars(input);
    parse_expression_chars(&chars)
}

// ---------------------------------------------------------------------------
// Templates: text with `${expression}` placeholders, found by a regular expression.
// ---------------------------------------------------------------------------

/// A placeholder: `${`, a body of one or more characters other than `}`, `}`.
pub const TEMPLATE_PATTERN: &'static str = "\\$\\{([^}]+)\\}";

/// The text of the error `regex::Regex::new` reports for a pattern; `None` when it compiles.
pub uninterp spec fn regex_compile_error(pattern: Seq<char>) -> Option<Seq<char>>;

/// The texts `regex::Regex::split` yields: what lies before, between and after the matches.
pub uninterp spec fn regex_split_pieces(pattern: Seq<char>, haystack: Seq<char>) -> Seq<Seq<char>>;

/// For each match `regex::Regex::captures_iter` yields, the text of capture group 1
/// (empty when the group took no part in the match).
pub uninterp spec fn regex_first_groups(pattern: Seq<char>, haystack: Seq<char>) -> Seq<Seq<char>>;

/// The first `}` at or after `j`.
pub open spec fn closing_brace(s: Seq<char>, j: int) -> Option<int>
    decreases s.len() - j,
{
    if j < 0 || j >= s.len() {
        None
    } else if s[j] == '}' {
        Some(j)
    } else {
        closing_brace(s, j + 1)
    }
}

/// Where a placeholder that starts at `i` ends (just after its `}`), if one
/// starts there: `${`, then every character up to the next `}`, at least one.
pub open spec fn placeholder_end(s: Seq<char>, i: int) -> Option<int> {
    if 0 <= i && i + 1 < s.len() && s[i] == '$' && s[i + 1] == '{' {
        match closing_brace(s, i + 2) {
            Some(k) => if i + 2 < k < s.len() { Some(k + 1) } else { None },
            None => None,
        }
    } else {
        None
    }
}

/// The first place at or after `pos` where a placeholder starts.
pub open spec fn next_placeholder(s: Seq<char>, pos: int) -> Option<int>
    decreases s.len() - pos,
{
    if pos < 0 || pos >= s.len() {
        None
    } else if placeholder_end(s, pos) is Some {
        Some(pos)
    } else {
        next_placeholder(s, pos + 1)
    }
}

/// The placeholders of `s` from `pos` on, each taken at the first place one
/// starts and searched for again after its end: the texts before, between and
/// after them, and their bodies.
pub open spec fn template_scan(s: Seq<char>, pos: int) -> (Seq<Seq<char>>, Seq<Seq<char>>)
    decreases s.len() - pos,
{
    match next_placeholder(s, pos) {
        Some(i) => match placeholder_end(s, i) {
            Some(e) => if pos < e <= s.len() {
                let rest = template_scan(s, e);
                (seq![s.subrange(pos, i)] + rest.0, seq![s.subrange(i + 2, e - 1)] + rest.1)
            } else {
                (seq![s.subrange(pos, s.len() as int)], Seq::empty())
            },
            None => (seq![s.subrange(pos, s.len() as int)], Seq::empty()),
        },
        None => (seq![s.subrange(pos, s.len() as int)], Seq::empty()),
    }
}

pub open spec fn texts_of(v: Seq<String>) -> Seq<Seq<char>> {
    v.map_values(|s: String| s@)
}

/// Calls `regex::Regex::new` on `pattern` and returns the text of its error, if any.
/// The contract names that outcome `regex_compile_error`; the placeholder pattern
/// is a valid expression and compiles.
#[verifier::external_body]
fn regex_check(pattern: &str) -> (r: Option<String>)
    ensures
        match r {
            Some(e) => regex_compile_error(pattern@) == Some(e@),
            None => regex_compile_error(pattern@).is_none(),
        },
        pattern@ == TEMPLATE_PATTERN@ ==> r.is_none(),
{
    match regex::Regex::new(pattern) {
        Ok(_) => None,
        Err(e) => Some(e.to_string()),
    }
}

/// Calls `regex::Regex::split` with the compiled `pattern` on `haystack`. Its
/// documentation (and source) give one more piece than there are matches: the
/// pieces lie before, between and after them. The pieces themselves are named
/// `regex_split_pieces`. For the placeholder pattern the matches are those
/// `template_scan` finds: the search is leftmost-first, and from a `${` the
/// class `[^}]+` can only run up to the next `}`.
#[verifier::external_body]
fn regex_split(pattern: &str, haystack: &str) -> (r: Vec<String>)
    requires
        regex_compile_error(pattern@).is_none(),
    ensures
        texts_of(r@) == regex_split_pieces(pattern@, haystack@),
        r@.len() == regex_first_groups(pattern@, haystack@).len() + 1,
        pattern@ == TEMPLATE_PATTERN@ ==> texts_of(r@) == template_scan(haystack@, 0).0,
{
    match regex::Regex::new(pattern) {
        Ok(re) => re.split(haystack).map(|p| p.to_string()).collect(),
        Err(_) => Vec::new(),
    }
}

/// Calls `regex::Regex::captures_iter` with the compiled `pattern` on `haystack`
/// and keeps the text of capture group 1 of each match; named `regex_first_groups`.
/// For the placeholder pattern these are the bodies `template_scan` finds.
#[verifier::external_body]
fn regex_captures(pattern: &str, haystack: &str) -> (r: Vec<String>)
    requires
        regex_compile_error(pattern@).is_none(),
    ensures
        texts_of(r@) == regex_first_groups(pattern@, haystack@),
        pattern@ == TEMPLATE_PATTERN@ ==> texts_of(r@) == template_scan(haystack@, 0).1,
{
    match regex::Regex::new(pattern) {
        Ok(re) => re.captures_iter(haystack).map(|c| c.get(1).map_or(String::new(), |m| m.as_str().to_string())).collect(),
        Err(_) => Vec::new(),
    }
}

/// The parts of the first `n` placeholders: for each, the text before it (when
/// not empty), then its expression (when it parses).
pub open spec fn assemble_prefix(pieces: Seq<Seq<char>>, bodies: Seq<Seq<char>>, n: int) -> Seq<ExprModel>
    decreases n,
{
    if n <= 0 {
        Seq::empty()
    } else {
        let acc = assemble_prefix(pieces, bodies, n - 1);
        let acc1 = if pieces[n - 1].len() > 0 { acc.push(ExprModel::Lit(pieces[n - 1])) } else { acc };
        match spec_parse_expression(bodies[n - 1]) {
            Some(e) => acc1.push(e),
            None => acc1,
        }
    }
}

/// The parts of a template, given the texts around its placeholders and their
/// bodies: each placeholder's parts, then the text after the last one (when not empty).
pub open spec fn spec_assemble(pieces: Seq<Seq<char>>, bodies: Seq<Seq<char>>) -> Seq<ExprModel> {
    let acc = assemble_prefix(pieces, bodies, bodies.len() as int);
    let tail = pieces[bodies.len() as int];
    if tail.len() > 0 { acc.push(ExprModel::Lit(tail)) } else { acc }
}

/// The parts of a template text: the texts around its placeholders (those not
/// empty) and the placeholders' expressions (those that parse), in order.
pub open spec fn spec_extract_templates(s: Seq<char>) -> Seq<ExprModel> {
    spec_assemble(template_scan(s, 0).0, template_scan(s, 0).1)
}

/// The parts of a template text.
pub open spec fn template_parts(s: Seq<char>) -> Seq<ExprModel> {
    spec_extract_templates(s)
}

/// Puts a template together from the texts around its placeholders (`pieces`,
/// one more than there are placeholders) and the placeholders' bodies.
pub fn assemble_templates(pieces: &Vec<String>, bodies: &Vec<String>) -> (r: Vec<Expr>)
    requires
        pieces@.len() == bodies@.len() + 1,
    ensures
        Expr::models(r@) == spec_assemble(texts_of(pieces@), texts_of(bodies@)),
{
    let ghost ps = texts_of(pieces@);
    let ghost bs = texts_of(bodies@);
    let mut result: Vec<Expr> = Vec::new();
    let mut k: usize = 0;
    assert(Expr::models(result@) =~= Seq::<ExprModel>::empty());
    while k < bodies.len()
        invariant
            k <= bodies@.len(),
            pieces@.len() == bodies@.len() + 1,
            ps == texts_of(pieces@),
            bs == texts_of(bodies@),
            Expr::models(result@) == assemble_prefix(ps, bs, k as int),
        decreases bodies.len() - k,
    {
        assert(ps[k as int] == pieces@[k as int]@);
        assert(bs[k as int] == bodies@[k as int]@);
        if !pieces[k].as_str().is_empty() {
            proof { lemma_models_push(result@, Expr::Literal(pieces@[k as int])); }
            result.push(Expr::Literal(pieces[k].clone()));
        }
        match parse_expression(bodies[k].as_str()) {
            Some(e) => {
                proof { lemma_models_push(result@, e); }
                result.push(e);
            },
            None => {},
        }
        k = k + 1;
    }
    let last = bodies.len();
    assert(ps[last as int] == pieces@[last as int]@);
    if !pieces[last].as_str().is_empty() {
        proof { lemma_models_push(result@, Expr::Literal(pieces@[last as int])); }
        result.push(Expr::Literal(pieces[last].clone()));
    }
    result
}

/// Extracts the literal text and `${...}` expressions of a template, in order.
/// The placeholder pattern compiles, so this does not fail.
pub fn extract_and_parse_templates(input: &str) -> (r: Result<Vec<Expr>, crate::error::NylonError>)
    ensures
        r matches Ok(v) && Expr::models(v@) == spec_extract_templates(input@),
{
    match regex_check(TEMPLATE_PATTERN) {
        Some(e) => {
            proof { reveal_strlit("Invalid regex: "); }
            Err(crate::error::NylonError::ConfigError(String::from_str("Invalid regex: ").concat(e.as_str())))
        },
        None => {
            let pieces = regex_split(TEMPLATE_PATTERN, input);
            let bodies = regex_captures(TEMPLATE_PATTERN, input);
            Ok(assemble_templates(&pieces, &bodies))
        },
    }
}

// ---------------------------------------------------------------------------
// JSON paths: `key.sub[3].x`
// ---------------------------------------------------------------------------

/// A part of a JSON path.
#[derive(Debug, PartialEq, Eq)]
pub enum PathPart {
    Key(String),
    Index(usize),
}

pub enum PathPartModel {
    Key(Seq<char>),
    Index(nat),
}

impl PathPart {
    pub open spec fn model(self) -> PathPartModel {
        match self {
            PathPart::Key(k) => PathPartModel::Key(k@),
            PathPart::Index(n) => PathPartModel::Index(n as nat),
        }
    }
}

pub open spec fn path_models(s: Seq<PathPart>) -> Seq<PathPartModel> {
    s.map_values(|p: PathPart| p.model())
}

pub open spec fn is_digit(c: char) -> bool {
    '0' <= c <= '9'
}

/// The number written by a sequence of decimal digits.
pub open spec fn decimal_value(s: Seq<char>) -> nat
    decreases s.len(),
{
    if s.len() == 0 {
        0
    } else {
        decimal_value(s.drop_last()) * 10 + ((s.last() as nat) - ('0' as nat)) as nat
    }
}

/// The digits of a number written with an optional leading `+`.
pub open spec fn number_body(s: Seq<char>) -> Seq<char> {
    if s.len() > 0 && s[0] == '+' { s.drop_first() } else { s }
}

pub open spec fn all_digits(s: Seq<char>) -> bool {
    forall|k: int| 0 <= k < s.len() ==> is_digit(#[trigger] s[k])
}

/// What `usize::from_str` accepts: an optional `+`, then one or more decimal
/// digits whose value fits in a `usize`.
pub open spec fn spec_parse_usize(s: Seq<char>) -> Option<nat> {
    let body = number_body(s);
    if body.len() > 0 && all_digits(body) && decimal_value(body) <= usize::MAX {
        Some(decimal_value(body))
    } else {
        None
    }
}

pub proof fn lemma_decimal_prefix_le(s: Seq<char>, n: int)
    requires
        0 <= n <= s.len(),
        forall|k: int| 0 <= k < s.len() ==> is_digit(#[trigger] s[k]),
    ensures
        decimal_value(s.subrange(0, n)) <= decimal_value(s),
    decreases s.len() - n,
{
    if n < s.len() {
        lemma_decimal_prefix_le(s, n + 1);
        assert(s.subrange(0, n + 1).drop_last() =~= s.subrange(0, n));
    } else {
        assert(s.subrange(0, n) =~= s);
    }
}

/// Parses a decimal `usize` the way `usize::from_str` does.
pub fn parse_usize(v: &Vec<char>) -> (r: Option<usize>)
    ensures
        match r {
            Some(n) => spec_parse_usize(v@) == Some(n as nat),
            None => spec_parse_usize(v@).is_none(),
        },
{
    let ghost s = v@;
    let start: usize = if v.len() > 0 && v[0] == '+' { 1 } else { 0 };
    let ghost body = number_body(s);
    assert(body =~= s.subrange(start as int, s.len() as int));
    if start >= v.len() {
        return None;
    }
    let mut value: usize = 0;
    let mut i = start;
    while i < v.len()
        invariant
            start <= i <= v.len(),
            s == v@,
            body =~= s.subrange(start as int, s.len() as int),
            body == number_body(s),
            forall|k: int| start <= k < i ==> is_digit(#[trigger] s[k]),
            value as nat == decimal_value(s.subrange(start as int, i as int)),
        decreases v.len() - i,
    {
        let c = v[i];
        if !('0' <= c && c <= '9') {
            assert(!is_digit(body[i - start]));
            assert(!(forall|k: int| 0 <= k < body.len() ==> is_digit(#[trigger] body[k])));
            assert(spec_parse_usize(s).is_none());
            return None;
        }
        let d = (c as u32 - '0' as u32) as usize;
        assert(s.subrange(start as int, i + 1).drop_last() =~= s.subrange(start as int, i as int));
        if value > (usize::MAX - d) / 10 {
            proof {
                if all_digits(body) {
                    lemma_decimal_prefix_le(body, i + 1 - start);
                    assert(body.subrange(0, i + 1 - start) =~= s.subrange(start as int, i + 1));
                    assert(decimal_value(s.subrange(start as int, i + 1)) == value * 10 + d);
                    assert(value * 10 + d > usize::MAX);
                }
                assert(spec_parse_usize(s).is_none());
            }
            return None;
        }
        value = value * 10 + d;
        i = i + 1;
    }
    assert(s.subrange(start as int, i as int) =~= body);
    Some(value)
}

pub open spec fn flush_key(acc: Seq<PathPartModel>, key: Seq<char>) -> Seq<PathPartModel> {
    if key.len() > 0 { acc.push(PathPartModel::Key(key)) } else { acc }
}

/// Reads a path from position `i`, with `key` the key read so far and `acc` the parts before it.
/// `.` ends a key; `[digits]` is an index (dropped when the digits are not a `usize`);
/// every other character belongs to the current key.
pub open spec fn sp_path(s: Seq<char>, i: int, key: Seq<char>, acc: Seq<PathPartModel>) -> Seq<PathPartModel>
    decreases s.len() - i,
{
    if i < 0 || i >= s.len() {
        flush_key(acc, key)
    } else if s[i] == '.' {
        sp_path(s, i + 1, Seq::empty(), flush_key(acc, key))
    } else if s[i] == '[' {
        let e = find_char(s, i + 1, ']');
        proof {
            lemma_find_char(s, i + 1, ']');
        }
        let next = if e < s.len() { e + 1 } else { e };
        let acc1 = flush_key(acc, key);
        let acc2 = match spec_parse_usize(s.subrange(i + 1, e)) {
            Some(n) => acc1.push(PathPartModel::Index(n)),
            None => acc1,
        };
        sp_path(s, next, Seq::empty(), acc2)
    } else {
        sp_path(s, i + 1, key.push(s[i]), acc)
    }
}

/// The parts of a JSON path.
pub open spec fn spec_parse_path(s: Seq<char>) -> Seq<PathPartModel> {
    sp_path(s, 0, Seq::empty(), Seq::empty())
}

proof fn lemma_path_models_push(s: Seq<PathPart>, p: PathPart)
    ensures
        path_models(s.push(p)) == path_models(s).push(p.model()),
{
    assert(path_models(s.push(p)) =~= path_models(s).push(p.model()));
}

fn flush_key_exec(result: &mut Vec<PathPart>, key: &Vec<char>)
    ensures
        path_models(final(result)@) == flush_key(path_models(old(result)@), key@),
{
    if key.len() > 0 {
        let k = string_from_chars(key.as_slice());
        proof { lemma_path_models_push(result@, PathPart::Key(k)); }
        result.push(PathPart::Key(k));
    }
}

/// Splits a JSON path into keys and indexes.
pub fn parse_path(path: &str) -> (r: Vec<PathPart>)
    ensures
        path_models(r@) == spec_parse_path(path@),
{
    let chars = str_chars(path);
    let ghost s = chars@;
    let mut result: Vec<PathPart> = Vec::new();
    let mut key: Vec<char> = Vec::new();
    let mut i: usize = 0;
    assert(path_models(result@) =~= Seq::<PathPartModel>::empty());
    assert(key@ =~= Seq::<char>::empty());
    while i < chars.len()
        invariant
            i <= chars.len(),
            s == chars@,
            s == path@,
            sp_path(s, i as int, key@, path_models(result@)) == spec_parse_path(s),
        decreases chars.len() - i,
    {
        let c = chars[i];
        if c == '.' {
            flush_key_exec(&mut result, &key);
            key = Vec::new();
            assert(key@ =~= Seq::<char>::empty());
            i = i + 1;
        } else if c == '[' {
            flush_key_exec(&mut result, &key);
            key = Vec::new();
            assert(key@ =~= Seq::<char>::empty());
            let e = scan_to(&chars, i + 1, ']');
            let digits = sub_chars(&chars, i + 1, e);
            match parse_usize(&digits) {
                Some(n) => {
                    proof { lemma_path_models_push(result@, PathPart::Index(n)); }
                    result.push(PathPart::Index(n));
                },
                None => {},
            }
            i = if e < chars.len() { e + 1 } else { e };
        } else {
            key.push(c);
            i = i + 1;
        }
    }
    flush_key_exec(&mut result, &key);
    result
}

} // verus!
