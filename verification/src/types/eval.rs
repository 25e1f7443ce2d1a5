//! Evaluation of template expressions against a request context.
use vstd::prelude::*;
use vstd::string::*;
use vstd::utf8::encode_utf8;
use crate::text::{string_from_chars, decimal_string, usize_to_decimal};
use crate::types::template::{Expr, ExprModel};

verus! {

/// What the evaluation of a template reads from the request.
pub struct TemplateContext {
    /// Address of the client.
    pub client_ip: String,
    /// Request headers; names are matched exactly (case-sensitive).
    pub headers: Vec<(String, String)>,
    /// Process environment variables, as read when the context was built.
    pub env_vars: Vec<(String, String)>,
}

/// The value of the first entry named `key`.
pub open spec fn lookup(entries: Seq<(String, String)>, key: Seq<char>) -> Option<Seq<char>>
    decreases entries.len(),
{
    if entries.len() == 0 {
        None
    } else if entries[0].0@ == key {
        Some(entries[0].1@)
    } else {
        lookup(entries.drop_first(), key)
    }
}

/// What `str::to_uppercase` returns for a string (full Unicode case mapping).
pub uninterp spec fn string_upper(s: Seq<char>) -> Seq<char>;

/// What `str::to_lowercase` returns for a string (full Unicode case mapping).
pub uninterp spec fn string_lower(s: Seq<char>) -> Seq<char>;

/// Calls `str::to_uppercase`; the result is named by `string_upper`.
#[verifier::external_body]
pub(crate) fn to_upper(s: &str) -> (r: String)
    ensures
        r@ == string_upper(s@),
{
    s.to_uppercase()
}

/// Calls `str::to_lowercase`; the result is named by `string_lower`.
#[verifier::external_body]
pub(crate) fn to_lower(s: &str) -> (r: String)
    ensures
        r@ == string_lower(s@),
{
    s.to_lowercase()
}

pub open spec fn is_lower_hex(c: char) -> bool {
    ('0' <= c <= '9') || ('a' <= c <= 'f')
}

/// The hyphenated lowercase text of a UUID of the given version digit.
pub open spec fn is_uuid_text(s: Seq<char>, version: char) -> bool {
    &&& s.len() == 36
    &&& s[8] == '-' && s[13] == '-' && s[18] == '-' && s[23] == '-'
    &&& s[14] == version
    &&& forall|k: int| 0 <= k < 36 && k != 8 && k != 13 && k != 18 && k != 23 ==> is_lower_hex(#[trigger] s[k])
}

/// The version nibble of a UUID held as a number (`Uuid::as_u128`, most
/// significant byte first): bits 76 to 79.
pub open spec fn uuid_version(x: u128) -> u128 {
    (x >> 76u128) & 0xfu128
}

/// Calls `uuid::Uuid::new_v4` and returns it as a number (`as_u128`): random,
/// with version nibble 4, as the crate's documentation of version-4 UUIDs gives.
#[verifier::external_body]
fn new_uuid_v4() -> (r: u128)
    ensures
        uuid_version(r) == 4,
{
    uuid::Uuid::new_v4().as_u128()
}

/// The lowercase hexadecimal digit of `d`.
pub open spec fn spec_hex_digit(d: u128) -> char {
    if d == 0 { '0' } else if d == 1 { '1' } else if d == 2 { '2' } else if d == 3 { '3' }
    else if d == 4 { '4' } else if d == 5 { '5' } else if d == 6 { '6' } else if d == 7 { '7' }
    else if d == 8 { '8' } else if d == 9 { '9' } else if d == 10 { 'a' } else if d == 11 { 'b' }
    else if d == 12 { 'c' } else if d == 13 { 'd' } else if d == 14 { 'e' } else { 'f' }
}

fn hex_digit(d: u128) -> (c: char)
    requires
        d < 16,
    ensures
        c == spec_hex_digit(d),
        is_lower_hex(c),
{
    if d == 0 { '0' } else if d == 1 { '1' } else if d == 2 { '2' } else if d == 3 { '3' }
    else if d == 4 { '4' } else if d == 5 { '5' } else if d == 6 { '6' } else if d == 7 { '7' }
    else if d == 8 { '8' } else if d == 9 { '9' } else if d == 10 { 'a' } else if d == 11 { 'b' }
    else if d == 12 { 'c' } else if d == 13 { 'd' } else if d == 14 { 'e' } else { 'f' }
}

/// Where the text of a UUID has a hyphen.
pub open spec fn uuid_hyphen_at(k: int) -> bool {
    k == 8 || k == 13 || k == 18 || k == 23
}

/// Which hex digit of the number the character at `i` of the text shows.
pub open spec fn nibble_index(i: int) -> int {
    if i < 8 { i } else if i < 13 { i - 1 } else if i < 18 { i - 2 } else if i < 23 { i - 3 } else { i - 4 }
}

/// Hex digit `j` of `x`, counted from the most significant.
pub open spec fn uuid_digit(x: u128, j: int) -> char {
    spec_hex_digit((x >> ((124 - 4 * j) as u128)) & 0xfu128)
}

/// The hyphenated lowercase text of a UUID held as a number (what `Uuid`'s
/// `Display` writes): 32 hex digits, most significant first, in groups of
/// 8, 4, 4, 4 and 12.
pub fn uuid_text(x: u128) -> (r: String)
    ensures
        is_uuid_text(r@, spec_hex_digit(uuid_version(x))),
        forall|i: int| 0 <= i < 36 && !uuid_hyphen_at(i) ==> #[trigger] r@[i] == uuid_digit(x, nibble_index(i)),
{
    let mut out: Vec<char> = Vec::new();
    let mut k: u128 = 0;
    while k < 32
        invariant
            k <= 32,
            out@.len() == k + (if k > 20 { 4int } else if k > 16 { 3int } else if k > 12 { 2int } else if k > 8 { 1int } else { 0int }),
            forall|i: int| 0 <= i < out@.len() ==> (uuid_hyphen_at(i) <==> #[trigger] out@[i] == '-'),
            forall|i: int| 0 <= i < out@.len() && !uuid_hyphen_at(i) ==> is_lower_hex(#[trigger] out@[i]),
            k > 12 ==> out@[14] == spec_hex_digit(uuid_version(x)),
            forall|i: int| 0 <= i < out@.len() && !uuid_hyphen_at(i) ==> #[trigger] out@[i] == uuid_digit(x, nibble_index(i)),
        decreases 32 - k,
    {
        if k == 8 || k == 12 || k == 16 || k == 20 {
            out.push('-');
        }
        let shift: u128 = 124 - 4 * k;
        let y = x >> shift;
        let d = y & 0xf;
        assert(d < 16) by (bit_vector)
            requires d == y & 0xf;
        let c = hex_digit(d);
        out.push(c);
        k = k + 1;
    }
    string_from_chars(out.as_slice())
}

/// A random version-4 UUID in hyphenated lowercase form.
pub fn new_uuid_v4_string() -> (r: String)
    ensures
        is_uuid_text(r@, '4'),
{
    uuid_text(new_uuid_v4())
}

/// A time-ordered version-7 UUID in hyphenated lowercase form.
pub fn new_uuid_v7_string() -> (r: String)
    ensures
        is_uuid_text(r@, '7'),
{
    uuid_text(crate::messaging::protocol::new_request_id())
}

/// Calls `chrono::Utc::now` and formats it with `to_rfc3339_opts(Millis, true)`:
/// the current UTC time as `YYYY-MM-DDTHH:MM:SS.mmmZ` (see `is_timestamp_text`).
#[verifier::external_body]
pub(crate) fn now_rfc3339_millis() -> (r: String)
    ensures
        is_timestamp_text(r@),
{
    chrono::Utc::now().to_rfc3339_opts(chrono::SecondsFormat::Millis, true)
}

/// Length in bytes of the UTF-8 encoding of `s`, as `str::len` reports it.
pub open spec fn byte_len(s: Seq<char>) -> nat {
    (encode_utf8(s).len() as usize) as nat
}

/// Whether evaluating `e` may call a source of time or randomness
/// (`timestamp()`, `uuid(v4)`, `uuid(v7)`).
pub open spec fn has_dynamic(e: ExprModel) -> bool
    decreases e, 0int,
{
    match e {
        ExprModel::Func(name, args) => {
            ||| name == "timestamp"@
            ||| (name == "uuid"@ && args.len() > 0 && (args[0] == ExprModel::Var("v4"@) || args[0] == ExprModel::Var("v7"@)))
            ||| has_dynamic_from(args, 0)
        },
        _ => false,
    }
}

pub open spec fn has_dynamic_from(args: Seq<ExprModel>, i: int) -> bool
    decreases args, args.len() - i,
{
    if 0 <= i < args.len() {
        has_dynamic(args[i]) || has_dynamic_from(args, i + 1)
    } else {
        false
    }
}

/// The value of an expression in a context.
pub open spec fn spec_eval(e: ExprModel, ctx: TemplateContext) -> Seq<char>
    decreases e, 0int,
{
    match e {
        ExprModel::Lit(s) => s,
        ExprModel::Var(n) => if n == "client_ip"@ { ctx.client_ip@ } else { Seq::empty() },
        ExprModel::Func(name, args) => {
            if name == "header"@ {
                if args.len() > 0 && args[0] is Var {
                    match lookup(ctx.headers@, args[0]->Var_0) {
                        Some(v) => v,
                        None => Seq::empty(),
                    }
                } else {
                    Seq::empty()
                }
            } else if name == "var"@ {
                if args.len() > 0 && args[0] == ExprModel::Var("client_ip"@) {
                    ctx.client_ip@
                } else {
                    Seq::empty()
                }
            } else if name == "env"@ {
                if args.len() > 0 && args[0] is Var {
                    match lookup(ctx.env_vars@, args[0]->Var_0) {
                        Some(v) => v,
                        None => Seq::empty(),
                    }
                } else {
                    Seq::empty()
                }
            } else if name == "or"@ {
                spec_eval_or(args, 0, ctx)
            } else if name == "eq"@ || name == "neq"@ {
                if args.len() >= 2 {
                    let v1 = spec_eval(args[0], ctx);
                    let v2 = spec_eval(args[1], ctx);
                    if (v1 == v2) == (name == "eq"@) {
                        if args.len() >= 3 { spec_eval(args[2], ctx) } else { v1 }
                    } else {
                        Seq::empty()
                    }
                } else {
                    Seq::empty()
                }
            } else if name == "upper"@ {
                if args.len() > 0 { string_upper(spec_eval(args[0], ctx)) } else { Seq::empty() }
            } else if name == "lower"@ {
                if args.len() > 0 { string_lower(spec_eval(args[0], ctx)) } else { Seq::empty() }
            } else if name == "len"@ {
                if args.len() > 0 {
                    decimal_string(byte_len(spec_eval(args[0], ctx)))
                } else {
                    Seq::empty()
                }
            } else if name == "if_cond"@ {
                if args.len() == 3 {
                    if spec_eval(args[0], ctx).len() > 0 {
                        spec_eval(args[1], ctx)
                    } else {
                        spec_eval(args[2], ctx)
                    }
                } else {
                    Seq::empty()
                }
            } else {
                // `timestamp()` and `uuid(v4|v7)` read the clock or randomness
                // (see `has_dynamic`); every other name yields nothing.
                Seq::empty()
            }
        },
    }
}

/// The concatenated values of a sequence of expressions.
pub open spec fn spec_render(es: Seq<ExprModel>, ctx: TemplateContext) -> Seq<char>
    decreases es.len(),
{
    if es.len() == 0 {
        Seq::empty()
    } else {
        spec_render(es.drop_last(), ctx) + spec_eval(es.last(), ctx)
    }
}

/// The first non-empty value among `args[i..]`.
pub open spec fn spec_eval_or(args: Seq<ExprModel>, i: int, ctx: TemplateContext) -> Seq<char>
    decreases args, args.len() - i,
{
    if 0 <= i < args.len() {
        let v = spec_eval(args[i], ctx);
        if v.len() > 0 { v } else { spec_eval_or(args, i + 1, ctx) }
    } else {
        Seq::empty()
    }
}

/// The text `timestamp()` gives: the current UTC time in RFC 3339 form with
/// milliseconds, `YYYY-MM-DDTHH:MM:SS.mmmZ`; the year has four digits, or a sign
/// and at least four digits outside the years 0 to 9999.
pub open spec fn is_timestamp_text(s: Seq<char>) -> bool {
    let n = s.len() as int;
    &&& n >= 24
    &&& (is_ascii_digit(s[0]) || s[0] == '+' || s[0] == '-')
    &&& forall|k: int| 1 <= k < n - 20 ==> is_ascii_digit(#[trigger] s[k])
    &&& s[n - 20] == '-' && s[n - 17] == '-' && s[n - 14] == 'T' && s[n - 11] == ':'
    &&& s[n - 8] == ':' && s[n - 5] == '.' && s[n - 1] == 'Z'
    &&& forall|k: int| n - 20 < k < n - 1 && k != n - 17 && k != n - 14 && k != n - 11 && k != n - 8 && k != n - 5
            ==> is_ascii_digit(#[trigger] s[k])
}

/// An ASCII decimal digit.
pub open spec fn is_ascii_digit(c: char) -> bool {
    '0' <= c <= '9'
}

/// How one evaluation went: the value of the expression and, in order, how each
/// of its arguments' evaluations went (arguments that were not evaluated may
/// hold anything).
pub ghost struct EvalTrace {
    pub value: Seq<char>,
    pub args: Seq<EvalTrace>,
}

/// `t` is a possible evaluation of `e`: `spec_eval` when `e` reads no clock or
/// randomness; otherwise each function works on the values its arguments gave,
/// as `spec_eval` does, a `timestamp()` giving some timestamp text and a
/// `uuid(v4)` or `uuid(v7)` some UUID text of that version.
pub open spec fn trace_ok(e: ExprModel, ctx: TemplateContext, t: EvalTrace) -> bool
    decreases e, 0int,
{
    if !has_dynamic(e) {
        t.value == spec_eval(e, ctx)
    } else {
        match e {
            ExprModel::Func(name, args) => {
                let kids = t.args;
                let v = t.value;
                if name == "or"@ {
                    or_trace_ok(args, 0, ctx, kids, v)
                } else if name == "eq"@ || name == "neq"@ {
                    if args.len() >= 2 {
                        &&& kids.len() >= 2
                        &&& trace_ok(args[0], ctx, kids[0])
                        &&& trace_ok(args[1], ctx, kids[1])
                        &&& if (kids[0].value == kids[1].value) == (name == "eq"@) {
                                if args.len() >= 3 {
                                    kids.len() >= 3 && trace_ok(args[2], ctx, kids[2]) && v == kids[2].value
                                } else {
                                    v == kids[0].value
                                }
                            } else {
                                v == Seq::<char>::empty()
                            }
                    } else {
                        v == Seq::<char>::empty()
                    }
                } else if name == "upper"@ || name == "lower"@ || name == "len"@ {
                    &&& args.len() > 0
                    &&& kids.len() > 0
                    &&& trace_ok(args[0], ctx, kids[0])
                    &&& v == if name == "upper"@ {
                            string_upper(kids[0].value)
                        } else if name == "lower"@ {
                            string_lower(kids[0].value)
                        } else {
                            decimal_string(byte_len(kids[0].value))
                        }
                } else if name == "if_cond"@ {
                    if args.len() == 3 {
                        &&& kids.len() == 3
                        &&& trace_ok(args[0], ctx, kids[0])
                        &&& if kids[0].value.len() > 0 {
                                trace_ok(args[1], ctx, kids[1]) && v == kids[1].value
                            } else {
                                trace_ok(args[2], ctx, kids[2]) && v == kids[2].value
                            }
                    } else {
                        v == Seq::<char>::empty()
                    }
                } else if name == "timestamp"@ {
                    is_timestamp_text(v)
                } else if name == "uuid"@ && args.len() > 0 && args[0] == ExprModel::Var("v4"@) {
                    is_uuid_text(v, '4')
                } else if name == "uuid"@ && args.len() > 0 && args[0] == ExprModel::Var("v7"@) {
                    is_uuid_text(v, '7')
                } else {
                    // `header`, `var` and `env` read their argument's name, not its
                    // value; other names give nothing.
                    v == spec_eval(e, ctx)
                }
            },
            _ => t.value == spec_eval(e, ctx),
        }
    }
}

/// `or(args[i..])` gave `v`, the first non-empty value, going by `kids`.
pub open spec fn or_trace_ok(args: Seq<ExprModel>, i: int, ctx: TemplateContext, kids: Seq<EvalTrace>, v: Seq<char>) -> bool
    decreases args, args.len() - i,
{
    if 0 <= i < args.len() {
        &&& i < kids.len()
        &&& trace_ok(args[i], ctx, kids[i])
        &&& if kids[i].value.len() > 0 { v == kids[i].value } else { or_trace_ok(args, i + 1, ctx, kids, v) }
    } else {
        v == Seq::<char>::empty()
    }
}

/// `v` is a value that evaluating `e` can give (see `trace_ok`).
pub open spec fn eval_outcome(e: ExprModel, ctx: TemplateContext, v: Seq<char>) -> bool {
    exists|t: EvalTrace| #[trigger] trace_ok(e, ctx, t) && t.value == v
}

/// The parts joined in order.
pub open spec fn concat_parts(vals: Seq<Seq<char>>) -> Seq<char>
    decreases vals.len(),
{
    if vals.len() == 0 {
        Seq::empty()
    } else {
        concat_parts(vals.drop_last()) + vals.last()
    }
}

/// `r` is a text rendering the parts `es` can give: the values each part can
/// give (see `eval_outcome`), joined in order.
pub open spec fn render_outcome(es: Seq<ExprModel>, ctx: TemplateContext, r: Seq<char>) -> bool {
    exists|vals: Seq<Seq<char>>| vals.len() == es.len()
        && (forall|k: int| 0 <= k < es.len() ==> eval_outcome(es[k], ctx, #[trigger] vals[k]))
        && r == #[trigger] concat_parts(vals)
}

pub proof fn lemma_models_index(s: Seq<Expr>)
    ensures
        Expr::models(s).len() == s.len(),
        forall|k: int| 0 <= k < s.len() ==> #[trigger] Expr::models(s)[k] == s[k].model(),
    decreases s.len(),
{
    if s.len() > 0 {
        lemma_models_index(s.drop_last());
    }
}

proof fn lemma_no_dynamic_from(args: Seq<ExprModel>, i: int)
    requires
        0 <= i,
        !has_dynamic_from(args, i),
    ensures
        forall|k: int| i <= k < args.len() ==> !has_dynamic(#[trigger] args[k]),
    decreases args.len() - i,
{
    if i < args.len() {
        lemma_no_dynamic_from(args, i + 1);
    }
}

/// Whether two strings hold the same characters.
pub fn text_eq(a: &str, b: &str) -> (r: bool)
    ensures
        r == (a@ == b@),
{
    let x = String::from_str(a);
    let y = String::from_str(b);
    x == y
}

/// The value of the first entry named `key`.
pub fn lookup_exec(entries: &Vec<(String, String)>, key: &str) -> (r: Option<String>)
    ensures
        match r {
            Some(v) => lookup(entries@, key@) == Some(v@),
            None => lookup(entries@, key@).is_none(),
        },
{
    let mut i: usize = 0;
    assert(entries@.subrange(0, entries.len() as int) =~= entries@);
    while i < entries.len()
        invariant
            i <= entries.len(),
            lookup(entries@, key@) == lookup(entries@.subrange(i as int, entries.len() as int), key@),
        decreases entries.len() - i,
    {
        let ghost rest = entries@.subrange(i as int, entries.len() as int);
        assert(rest.drop_first() =~= entries@.subrange(i + 1, entries.len() as int));
        if text_eq(entries[i].0.as_str(), key) {
            return Some(entries[i].1.clone());
        }
        i = i + 1;
    }
    None
}

/// Evaluates a template expression in the given context.
pub fn eval_expr(expr: &Expr, ctx: &TemplateContext) -> (r: String)
    ensures
        eval_outcome(expr.model(), *ctx, r@),
        !has_dynamic(expr.model()) ==> r@ == spec_eval(expr.model(), *ctx),
        (expr.model() matches ExprModel::Func(n, _a) && n == "timestamp"@)
            ==> is_timestamp_text(r@),
        (expr.model() matches ExprModel::Func(n, a) && n == "uuid"@ && a.len() > 0 && a[0] == ExprModel::Var("v4"@))
            ==> is_uuid_text(r@, '4'),
        (expr.model() matches ExprModel::Func(n, a) && n == "uuid"@ && a.len() > 0 && a[0] == ExprModel::Var("v7"@))
            ==> is_uuid_text(r@, '7'),
{
    let (r, Ghost(t)) = eval_traced(expr, ctx);
    proof {
        reveal_strlit("or");
        reveal_strlit("eq");
        reveal_strlit("neq");
        reveal_strlit("upper");
        reveal_strlit("lower");
        reveal_strlit("len");
        reveal_strlit("if_cond");
        reveal_strlit("timestamp");
        reveal_strlit("uuid");
        reveal_strlit("v4");
        reveal_strlit("v7");
        assert("or"@.len() == 2 && "eq"@.len() == 2 && "neq"@.len() == 3 && "upper"@.len() == 5);
        assert("lower"@.len() == 5 && "len"@.len() == 3 && "if_cond"@.len() == 7);
        assert("timestamp"@.len() == 9 && "uuid"@.len() == 4);
        assert("v4"@[1] == '4' && "v7"@[1] == '7');
        assert("v4"@ != "v7"@);
        assert(trace_ok(expr.model(), *ctx, t));
        if !has_dynamic(expr.model()) {
        } else {
            assert("uuid"@ != "timestamp"@);
        }
    }
    r
}

/// Evaluates `expr`, with how the evaluation went.
fn eval_traced(expr: &Expr, ctx: &TemplateContext) -> (r: (String, Ghost<EvalTrace>))
    ensures
        trace_ok(expr.model(), *ctx, r.1@),
        r.1@.value == r.0@,
        !has_dynamic(expr.model()) ==> r.0@ == spec_eval(expr.model(), *ctx),
    decreases expr,
{
    let ghost empty_kids = Seq::<EvalTrace>::empty();
    match expr {
        Expr::Literal(s) => {
            let v = s.clone();
            (v, Ghost(EvalTrace { value: v@, args: empty_kids }))
        },
        Expr::Var(name) => {
            let v = if text_eq(name.as_str(), "client_ip") {
                ctx.client_ip.clone()
            } else {
                String::new()
            };
            (v, Ghost(EvalTrace { value: v@, args: empty_kids }))
        },
        Expr::Func { name, args } => {
            let ghost m = Expr::models(args@);
            proof {
                lemma_models_index(args@);
                assert(expr.model() == ExprModel::Func(name@, m));
                if !has_dynamic(expr.model()) {
                    lemma_no_dynamic_from(m, 0);
                }
            }
            let n = name.as_str();
            proof {
                reveal_strlit("header");
                reveal_strlit("var");
                reveal_strlit("env");
                reveal_strlit("or");
                reveal_strlit("eq");
                reveal_strlit("neq");
                reveal_strlit("upper");
                reveal_strlit("lower");
                reveal_strlit("len");
                reveal_strlit("if_cond");
                reveal_strlit("timestamp");
                reveal_strlit("uuid");
                reveal_strlit("v4");
                reveal_strlit("v7");
                assert("header"@.len() == 6 && "var"@.len() == 3 && "env"@.len() == 3 && "or"@.len() == 2);
                assert("eq"@.len() == 2 && "neq"@.len() == 3 && "upper"@.len() == 5 && "lower"@.len() == 5);
                assert("len"@.len() == 3 && "if_cond"@.len() == 7 && "timestamp"@.len() == 9 && "uuid"@.len() == 4);
                assert("v4"@[1] == '4' && "v7"@[1] == '7');
                assert("upper"@[0] == 'u' && "lower"@[0] == 'l' && "len"@[0] == 'l' && "lower"@[1] == 'o' && "len"@[1] == 'e');
                assert("var"@[0] == 'v' && "env"@[0] == 'e' && "eq"@[0] == 'e' && "eq"@[1] == 'q' && "env"@[1] == 'n');
            }
            if text_eq(n, "header") {
                let v = if args.len() > 0 {
                    match &args[0] {
                        Expr::Var(h) => {
                            match lookup_exec(&ctx.headers, h.as_str()) {
                                Some(v) => v,
                                None => String::new(),
                            }
                        },
                        _ => String::new(),
                    }
                } else {
                    String::new()
                };
                (v, Ghost(EvalTrace { value: v@, args: empty_kids }))
            } else if text_eq(n, "var") {
                let v = if args.len() > 0 {
                    match &args[0] {
                        Expr::Var(v) => {
                            if text_eq(v.as_str(), "client_ip") {
                                ctx.client_ip.clone()
                            } else {
                                String::new()
                            }
                        },
                        _ => String::new(),
                    }
                } else {
                    String::new()
                };
                (v, Ghost(EvalTrace { value: v@, args: empty_kids }))
            } else if text_eq(n, "env") {
                let v = if args.len() > 0 {
                    match &args[0] {
                        Expr::Var(v) => {
                            match lookup_exec(&ctx.env_vars, v.as_str()) {
                                Some(x) => x,
                                None => String::new(),
                            }
                        },
                        _ => String::new(),
                    }
                } else {
                    String::new()
                };
                (v, Ghost(EvalTrace { value: v@, args: empty_kids }))
            } else if text_eq(n, "or") {
                let mut i: usize = 0;
                let ghost mut kids = Seq::<EvalTrace>::empty();
                assert("or"@.len() != "timestamp"@.len() && "or"@.len() != "uuid"@.len());
                #[verifier::loop_isolation(false)]
                while i < args.len()
                    invariant
                        i <= args.len(),
                        expr.model() == ExprModel::Func(name@, m),
                        name@ == "or"@,
                        "or"@ != "timestamp"@,
                        "or"@ != "uuid"@,
                        m == Expr::models(args@),
                        m.len() == args.len(),
                        kids.len() == i,
                        forall|k: int| 0 <= k < args.len() ==> #[trigger] m[k] == args@[k].model(),
                        !has_dynamic(expr.model()) ==> forall|k: int| 0 <= k < m.len() ==> !has_dynamic(#[trigger] m[k]),
                        !has_dynamic(expr.model()) ==> spec_eval_or(m, 0, *ctx) == spec_eval_or(m, i as int, *ctx),
                        forall|k: int| 0 <= k < i ==> trace_ok(m[k], *ctx, #[trigger] kids[k]) && kids[k].value.len() == 0,
                    decreases args.len() - i,
                {
                    let (v, Ghost(tv)) = eval_traced(&args[i], ctx);
                    proof {
                        kids = kids.push(tv);
                    }
                    if !v.as_str().is_empty() {
                        proof {
                            lemma_or_trace(m, *ctx, kids, i as int, v@);
                        }
                        return (v, Ghost(EvalTrace { value: v@, args: kids }));
                    }
                    i = i + 1;
                }
                proof {
                    lemma_or_trace_empty(m, *ctx, kids, 0);
                }
                let v = String::new();
                (v, Ghost(EvalTrace { value: v@, args: kids }))
            } else if text_eq(n, "eq") || text_eq(n, "neq") {
                if args.len() >= 2 {
                    let (v1, Ghost(t1)) = eval_traced(&args[0], ctx);
                    let (v2, Ghost(t2)) = eval_traced(&args[1], ctx);
                    let want_equal = text_eq(n, "eq");
                    if (v1 == v2) == want_equal {
                        if args.len() >= 3 {
                            let (v3, Ghost(t3)) = eval_traced(&args[2], ctx);
                            (v3, Ghost(EvalTrace { value: v3@, args: seq![t1, t2, t3] }))
                        } else {
                            (v1, Ghost(EvalTrace { value: v1@, args: seq![t1, t2] }))
                        }
                    } else {
                        let v = String::new();
                        (v, Ghost(EvalTrace { value: v@, args: seq![t1, t2] }))
                    }
                } else {
                    let v = String::new();
                    (v, Ghost(EvalTrace { value: v@, args: empty_kids }))
                }
            } else if text_eq(n, "upper") {
                if args.len() > 0 {
                    let (v, Ghost(t0)) = eval_traced(&args[0], ctx);
                    let u = to_upper(v.as_str());
                    (u, Ghost(EvalTrace { value: u@, args: seq![t0] }))
                } else {
                    let v = String::new();
                    (v, Ghost(EvalTrace { value: v@, args: empty_kids }))
                }
            } else if text_eq(n, "lower") {
                if args.len() > 0 {
                    let (v, Ghost(t0)) = eval_traced(&args[0], ctx);
                    let u = to_lower(v.as_str());
                    (u, Ghost(EvalTrace { value: u@, args: seq![t0] }))
                } else {
                    let v = String::new();
                    (v, Ghost(EvalTrace { value: v@, args: empty_kids }))
                }
            } else if text_eq(n, "len") {
                if args.len() > 0 {
                    let (v, Ghost(t0)) = eval_traced(&args[0], ctx);
                    let u = usize_to_decimal(v.as_str().len());
                    (u, Ghost(EvalTrace { value: u@, args: seq![t0] }))
                } else {
                    let v = String::new();
                    (v, Ghost(EvalTrace { value: v@, args: empty_kids }))
                }
            } else if text_eq(n, "if_cond") {
                if args.len() == 3 {
                    let (cond, Ghost(tc)) = eval_traced(&args[0], ctx);
                    if !cond.as_str().is_empty() {
                        let (v, Ghost(tb)) = eval_traced(&args[1], ctx);
                        (v, Ghost(EvalTrace { value: v@, args: seq![tc, tb, tb] }))
                    } else {
                        let (v, Ghost(tb)) = eval_traced(&args[2], ctx);
                        (v, Ghost(EvalTrace { value: v@, args: seq![tc, tb, tb] }))
                    }
                } else {
                    let v = String::new();
                    (v, Ghost(EvalTrace { value: v@, args: empty_kids }))
                }
            } else if text_eq(n, "timestamp") {
                let v = now_rfc3339_millis();
                (v, Ghost(EvalTrace { value: v@, args: empty_kids }))
            } else if text_eq(n, "uuid") {
                let v = if args.len() > 0 {
                    match &args[0] {
                        Expr::Var(v) => {
                            if text_eq(v.as_str(), "v4") {
                                new_uuid_v4_string()
                            } else if text_eq(v.as_str(), "v7") {
                                new_uuid_v7_string()
                            } else {
                                String::new()
                            }
                        },
                        _ => String::new(),
                    }
                } else {
                    String::new()
                };
                (v, Ghost(EvalTrace { value: v@, args: empty_kids }))
            } else {
                let v = String::new();
                (v, Ghost(EvalTrace { value: v@, args: empty_kids }))
            }
        },
    }
}

proof fn lemma_or_trace(args: Seq<ExprModel>, ctx: TemplateContext, kids: Seq<EvalTrace>, i: int, v: Seq<char>)
    requires
        0 <= i < args.len(),
        kids.len() == i + 1,
        forall|k: int| 0 <= k < i ==> trace_ok(args[k], ctx, #[trigger] kids[k]) && kids[k].value.len() == 0,
        trace_ok(args[i], ctx, kids[i]),
        kids[i].value == v,
        v.len() > 0,
    ensures
        or_trace_ok(args, 0, ctx, kids, v),
{
    lemma_or_trace_from(args, ctx, kids, i, v, 0);
}

proof fn lemma_or_trace_from(args: Seq<ExprModel>, ctx: TemplateContext, kids: Seq<EvalTrace>, i: int, v: Seq<char>, j: int)
    requires
        0 <= j <= i < args.len(),
        kids.len() == i + 1,
        forall|k: int| 0 <= k < i ==> trace_ok(args[k], ctx, #[trigger] kids[k]) && kids[k].value.len() == 0,
        trace_ok(args[i], ctx, kids[i]),
        kids[i].value == v,
        v.len() > 0,
    ensures
        or_trace_ok(args, j, ctx, kids, v),
    decreases i - j,
{
    if j < i {
        lemma_or_trace_from(args, ctx, kids, i, v, j + 1);
        assert(trace_ok(args[j], ctx, kids[j]) && kids[j].value.len() == 0);
    }
}

proof fn lemma_or_trace_empty(args: Seq<ExprModel>, ctx: TemplateContext, kids: Seq<EvalTrace>, j: int)
    requires
        0 <= j <= args.len(),
        kids.len() == args.len(),
        forall|k: int| 0 <= k < args.len() ==> trace_ok(args[k], ctx, #[trigger] kids[k]) && kids[k].value.len() == 0,
    ensures
        or_trace_ok(args, j, ctx, kids, Seq::<char>::empty()),
    decreases args.len() - j,
{
    if j < args.len() {
        lemma_or_trace_empty(args, ctx, kids, j + 1);
        assert(trace_ok(args[j], ctx, kids[j]) && kids[j].value.len() == 0);
    }
}

/// Renders a template by evaluating each part and concatenating the values, in
/// order (see `render_outcome`).
pub fn render_template_string(exprs: &[Expr], ctx: &TemplateContext) -> (r: String)
    ensures
        render_outcome(Expr::models(exprs@), *ctx, r@),
        (forall|k: int| 0 <= k < exprs@.len() ==> !has_dynamic(#[trigger] exprs@[k].model()))
            ==> r@ == spec_render(Expr::models(exprs@), *ctx),
{
    let mut result = String::new();
    let mut i: usize = 0;
    let ghost mut vals = Seq::<Seq<char>>::empty();
    proof { lemma_models_index(exprs@); }
    while i < exprs.len()
        invariant
            i <= exprs.len(),
            Expr::models(exprs@).len() == exprs@.len(),
            forall|k: int| 0 <= k < exprs@.len() ==> #[trigger] Expr::models(exprs@)[k] == exprs@[k].model(),
            (forall|k: int| 0 <= k < exprs@.len() ==> !has_dynamic(#[trigger] exprs@[k].model()))
                ==> result@ == spec_render(Expr::models(exprs@).subrange(0, i as int), *ctx),
            vals.len() == i,
            forall|k: int| 0 <= k < i ==> eval_outcome(Expr::models(exprs@)[k], *ctx, #[trigger] vals[k]),
            result@ == concat_parts(vals),
        decreases exprs.len() - i,
    {
        let v = eval_expr(&exprs[i], ctx);
        result = result.concat(v.as_str());
        proof {
            let ms = Expr::models(exprs@);
            assert(ms.subrange(0, i + 1).drop_last() =~= ms.subrange(0, i as int));
            let old_vals = vals;
            vals = vals.push(v@);
            assert(vals.drop_last() =~= old_vals);
        }
        i = i + 1;
    }
    assert(Expr::models(exprs@).subrange(0, i as int) =~= Expr::models(exprs@));
    assert(render_outcome(Expr::models(exprs@), *ctx, result@));
    result
}

} // verus!
