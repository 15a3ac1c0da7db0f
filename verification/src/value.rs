//! The typed value model and the expression evaluator.
//!
//! Evaluating an expression means: expand the symbols it names into their
//! current source-literal text, classify the expanded text as numeric or
//! string by its leading characters, then either hand the text to the
//! arithmetic evaluator or tokenize it as a `+`-joined sequence of string
//! and character literals.

use crate::error::Error;
use crate::interpreter::{resolve, Environment, VarModel};
use crate::num_text::{dec_str, int_to_decimal, is_digit_char, lemma_dec_str_form};
use crate::text::{find_char, find_char_str, push_char, str_eq, trim, trim_spec};
use vstd::prelude::*;
use vstd::string::StrSliceExecFns;

verus! {

/// Mathematical model of a value: a number or a text.
pub ghost enum ValueModel {
    Number(int),
    Str(Seq<char>),
}

/// Result of evaluating an expression. The numeric width of the language
/// is configured as a 64-bit signed integer. A value's variant never
/// changes after construction; evaluation produces fresh values.
#[derive(Debug)]
pub enum Value {
    Number(i64),
    Str(String),
}

impl View for Value {
    type V = ValueModel;

    open spec fn view(&self) -> ValueModel {
        match self {
            Value::Number(n) => ValueModel::Number(*n as int),
            Value::Str(s) => ValueModel::Str(s@),
        }
    }
}

impl Clone for Value {
    fn clone(&self) -> (r: Self)
        ensures
            r@ == self@,
    {
        match self {
            Value::Number(n) => Value::Number(*n),
            Value::Str(s) => Value::Str(s.clone()),
        }
    }
}

/// The source-literal text of a value: a number in decimal, a text wrapped
/// in double quotes. This is the form symbol expansion splices in.
pub open spec fn as_str_spec(v: ValueModel) -> Seq<char> {
    match v {
        ValueModel::Number(n) => dec_str(n),
        ValueModel::Str(t) => seq!['"'] + t + seq!['"'],
    }
}

/// The display text of a value: a number in decimal, a text as it is.
pub open spec fn display_spec(v: ValueModel) -> Seq<char> {
    match v {
        ValueModel::Number(n) => dec_str(n),
        ValueModel::Str(t) => t,
    }
}

impl Value {
    /// The source-literal representation: numbers in decimal, texts wrapped
    /// in double quotes (for splicing and diagnostics).
    pub fn as_str(&self) -> (r: String)
        ensures
            r@ == as_str_spec(self@),
    {
        match self {
            Value::Number(n) => int_to_decimal(*n),
            Value::Str(s) => {
                let mut r = String::from_str("\"");
                r.append(s.as_str());
                r.append("\"");
                proof {
                    reveal_strlit("\"");
                    assert(r@ =~= as_str_spec(self@));
                }
                r
            },
        }
    }

    /// The display text written by print commands: numbers in decimal,
    /// texts as they are.
    pub fn display(&self) -> (r: String)
        ensures
            r@ == display_spec(self@),
    {
        match self {
            Value::Number(n) => int_to_decimal(*n),
            Value::Str(s) => s.clone(),
        }
    }

    /// The type tag of this value.
    pub fn value_type(&self) -> (r: ValueType)
        ensures
            r == vt_of(self@),
    {
        match self {
            Value::Number(_) => ValueType::Number,
            Value::Str(_) => ValueType::Str,
        }
    }
}

/// Type tag of a value.
#[derive(Clone, Copy, PartialEq, Eq, Structural, Debug)]
pub enum ValueType {
    Number,
    Str,
}

/// The type tag of a value model.
pub open spec fn vt_of(v: ValueModel) -> ValueType {
    match v {
        ValueModel::Number(_) => ValueType::Number,
        ValueModel::Str(_) => ValueType::Str,
    }
}

/// The coarse type equality of the interpreter: two types are equal iff
/// both are Number or both are not. With the two types of this engine that
/// coincides with exact equality; it is kept in this documented form
/// because the language defines its type checks this way.
pub open spec fn vt_eq(a: ValueType, b: ValueType) -> bool {
    (a is Number) == (b is Number)
}

impl ValueType {
    /// Maps a reserved type-name token to a type tag; `None` for anything
    /// unrecognized.
    pub fn try_parse(expr: &str) -> (r: Option<ValueType>)
        ensures
            ({
                let t = trim_spec(expr@);
                r == if t == "FIBRA"@ {
                    Option::Some(ValueType::Str)
                } else if t == "TRAPEZIO DESCENDENTE"@ {
                    Option::Some(ValueType::Number)
                } else {
                    Option::<ValueType>::None
                }
            }),
    {
        let t = trim(expr);
        if str_eq(t.as_str(), "FIBRA") {
            Option::Some(ValueType::Str)
        } else if str_eq(t.as_str(), "TRAPEZIO DESCENDENTE") {
            Option::Some(ValueType::Number)
        } else {
            Option::None
        }
    }

    /// The type tags of a list of values, in order.
    pub fn types_of(values: &Vec<Value>) -> (r: Vec<ValueType>)
        ensures
            r@.len() == values@.len(),
            forall|i: int| 0 <= i < values@.len() ==> r@[i] == vt_of(values@[i]@),
    {
        let mut r: Vec<ValueType> = Vec::new();
        let mut i: usize = 0;
        while i < values.len()
            invariant
                i <= values@.len(),
                r@.len() == i,
                forall|j: int| 0 <= j < i ==> r@[j] == vt_of(values@[j]@),
            decreases values@.len() - i,
        {
            r.push(values[i].value_type());
            i += 1;
        }
        r
    }

    /// Whether two type tags are equal for the interpreter's checks: both
    /// Number, or both non-Number.
    pub fn equals(&self, other: ValueType) -> (r: bool)
        ensures
            r == vt_eq(*self, other),
    {
        let self_is_num = matches!(*self, ValueType::Number);
        let other_is_num = matches!(other, ValueType::Number);
        self_is_num == other_is_num
    }
}

/// Mapping of an evaluation result into the model world.
pub open spec fn res_model(r: Result<Value, Error>) -> Result<ValueModel, Error> {
    match r {
        Result::Ok(v) => Result::Ok(v@),
        Result::Err(e) => Result::Err(e),
    }
}

// ---------------------------------------------------------------------------
// Symbol expansion
// ---------------------------------------------------------------------------
/// A character that terminates a symbol: whitespace or an operator.
pub open spec fn sym_end_char(c: char) -> bool {
    c == ' ' || c == '+' || c == '-' || c == '/' || c == '*' || c == '&' || c == '|' || c == '%'
}

/// A character that starts a symbol: a letter or an underscore.
pub open spec fn ident_start_char(c: char) -> bool {
    ('a' <= c && c <= 'z') || ('A' <= c && c <= 'Z') || c == '_'
}

/// The scanner state of symbol expansion: inside a quoted string, just
/// after an unconsumed backslash, inside a character literal, accumulating
/// a symbol, and the rewritten output.
pub ghost struct ExpandState {
    pub in_str: bool,
    pub last_escape: bool,
    pub in_char: bool,
    pub in_sym: bool,
    pub sym: Seq<char>,
    pub out: Seq<char>,
}

pub open spec fn expand_init() -> ExpandState {
    ExpandState {
        in_str: false,
        last_escape: false,
        in_char: false,
        in_sym: false,
        sym: Seq::empty(),
        out: Seq::empty(),
    }
}

/// One step of the expansion scanner over the next character.
pub open spec fn expand_step(st: ExpandState, c: char, vars: Seq<VarModel>) -> Result<
    ExpandState,
    Error,
> {
    if st.in_sym {
        if sym_end_char(c) {
            match resolve(vars, st.sym) {
                Option::Some(v) => Result::Ok(
                    ExpandState {
                        in_sym: false,
                        sym: Seq::empty(),
                        out: st.out + as_str_spec(v) + seq![c],
                        ..st
                    },
                ),
                Option::None => Result::Err(Error::UnknownSymbol),
            }
        } else {
            Result::Ok(ExpandState { sym: st.sym.push(c), ..st })
        }
    } else if c == '"' {
        if st.last_escape {
            Result::Ok(ExpandState { last_escape: false, out: st.out.push(c), ..st })
        } else {
            Result::Ok(ExpandState { in_str: !st.in_str, out: st.out.push(c), ..st })
        }
    } else if c == '\\' && st.in_str {
        Result::Ok(ExpandState { last_escape: !st.last_escape, out: st.out.push(c), ..st })
    } else if ident_start_char(c) && !st.in_str && !st.in_char {
        Result::Ok(ExpandState { in_sym: true, sym: seq![c], ..st })
    } else if c == '\'' && !st.in_str {
        Result::Ok(ExpandState { in_char: !st.in_char, out: st.out.push(c), ..st })
    } else {
        Result::Ok(ExpandState { out: st.out.push(c), ..st })
    }
}

/// The expansion scanner folded over a whole text.
pub open spec fn expand_fold(s: Seq<char>, vars: Seq<VarModel>) -> Result<ExpandState, Error>
    decreases s.len(),
{
    if s.len() == 0 {
        Result::Ok(expand_init())
    } else {
        match expand_fold(s.drop_last(), vars) {
            Result::Err(e) => Result::Err(e),
            Result::Ok(st) => expand_step(st, s.last(), vars),
        }
    }
}

/// What symbol expansion produces for a whole expression: the rewritten
/// text, with a trailing symbol resolved, or the first error. An empty
/// expression is itself an error.
pub open spec fn expand_spec(s: Seq<char>, vars: Seq<VarModel>) -> Result<Seq<char>, Error> {
    if s.len() == 0 {
        Result::Err(Error::EmptyExpression)
    } else {
        match expand_fold(s, vars) {
            Result::Err(e) => Result::Err(e),
            Result::Ok(st) => {
                if st.in_sym && st.sym.len() > 0 {
                    match resolve(vars, st.sym) {
                        Option::Some(v) => Result::Ok(st.out + as_str_spec(v)),
                        Option::None => Result::Err(Error::UnknownSymbol),
                    }
                } else {
                    Result::Ok(st.out)
                }
            },
        }
    }
}

/// Once the scanner has failed on a prefix, the whole fold fails the same
/// way.
proof fn lemma_fold_err_persists(s: Seq<char>, vars: Seq<VarModel>, k: int)
    requires
        0 <= k <= s.len(),
        expand_fold(s.take(k), vars) is Err,
    ensures
        expand_fold(s, vars) == expand_fold(s.take(k), vars),
    decreases s.len() - k,
{
    if k == s.len() {
        assert(s.take(k) =~= s);
    } else {
        assert(s.take(k + 1).drop_last() =~= s.take(k));
        lemma_fold_err_persists(s, vars, k + 1);
    }
}

/// Expands each symbol of the expression into the source-literal text of
/// its current value, in place. Identifiers inside quoted strings or
/// character literals are left alone. Fails with `UnknownSymbol` when a
/// symbol has no value, and with `EmptyExpression` on empty input, leaving
/// the text unchanged.
pub fn expand_syms(expr: &mut String, env: &Environment) -> (r: Result<(), Error>)
    ensures
        match r {
            Result::Ok(_) => expand_spec(old(expr)@, env@.vars) == Result::<Seq<char>, Error>::Ok(
                final(expr)@,
            ),
            Result::Err(e) => expand_spec(old(expr)@, env@.vars) == Result::<Seq<char>, Error>::Err(
                e,
            ) && final(expr)@ == old(expr)@,
        },
{
    let n = expr.as_str().unicode_len();
    if n == 0 {
        return Result::Err(Error::EmptyExpression);
    }
    let mut in_str = false;
    let mut last_escape = false;
    let mut in_char = false;
    let mut in_sym = false;
    let mut sym = String::new();
    let mut out = String::new();
    let mut i: usize = 0;
    while i < n
        invariant
            i <= n,
            n == expr@.len(),
            expr@ == old(expr)@,
            ({
                let st = ExpandState {
                    in_str: in_str,
                    last_escape: last_escape,
                    in_char: in_char,
                    in_sym: in_sym,
                    sym: sym@,
                    out: out@,
                };
                expand_fold(expr@.take(i as int), env@.vars) == Result::<ExpandState, Error>::Ok(st)
            }),
        decreases n - i,
    {
        let ghost pre = ExpandState {
            in_str: in_str,
            last_escape: last_escape,
            in_char: in_char,
            in_sym: in_sym,
            sym: sym@,
            out: out@,
        };
        let c = expr.as_str().get_char(i);
        proof {
            assert(expr@.take(i as int + 1).drop_last() =~= expr@.take(i as int));
            assert(expr@.take(i as int + 1).last() == expr@[i as int]);
        }
        if in_sym {
            if c == ' ' || c == '+' || c == '-' || c == '/' || c == '*' || c == '&' || c == '|'
                || c == '%' {
                match env.get_var(sym.as_str()) {
                    Result::Ok(v) => {
                        let vs = v.as_str();
                        out.append(vs.as_str());
                        push_char(&mut out, c);
                        sym = String::new();
                        in_sym = false;
                        proof {
                            assert(out@ =~= pre.out + as_str_spec(v@) + seq![c]);
                        }
                    },
                    Result::Err(_) => {
                        proof {
                            assert(expand_fold(expr@.take(i as int + 1), env@.vars)
                                == Result::<ExpandState, Error>::Err(Error::UnknownSymbol));
                            lemma_fold_err_persists(expr@, env@.vars, i as int + 1);
                        }
                        return Result::Err(Error::UnknownSymbol);
                    },
                }
            } else {
                push_char(&mut sym, c);
            }
        } else if c == '"' {
            if last_escape {
                last_escape = false;
            } else {
                in_str = !in_str;
            }
            push_char(&mut out, c);
        } else if c == '\\' && in_str {
            last_escape = !last_escape;
            push_char(&mut out, c);
        } else if (('a' <= c && c <= 'z') || ('A' <= c && c <= 'Z') || c == '_') && !in_str
            && !in_char {
            in_sym = true;
            sym = String::new();
            push_char(&mut sym, c);
            proof {
                assert(sym@ =~= seq![c]);
            }
        } else if c == '\'' && !in_str {
            in_char = !in_char;
            push_char(&mut out, c);
        } else {
            push_char(&mut out, c);
        }
        i += 1;
    }
    proof {
        assert(expr@.take(n as int) =~= expr@);
    }
    if in_sym && sym.as_str().unicode_len() > 0 {
        match env.get_var(sym.as_str()) {
            Result::Ok(v) => {
                let vs = v.as_str();
                out.append(vs.as_str());
            },
            Result::Err(_) => {
                return Result::Err(Error::UnknownSymbol);
            },
        }
    }
    *expr = out;
    Result::Ok(())
}

// ---------------------------------------------------------------------------
// Laws of symbol expansion
// ---------------------------------------------------------------------------
/// Text containing no quote, apostrophe or identifier-starting character
/// folds through the expansion scanner unchanged.
proof fn lemma_expand_plain_fold(s: Seq<char>, vars: Seq<VarModel>)
    requires
        forall|i: int|
            0 <= i < s.len() ==> !ident_start_char(#[trigger] s[i]) && s[i] != '"' && s[i] != '\'',
    ensures
        expand_fold(s, vars) == Result::<ExpandState, Error>::Ok(
            (ExpandState { out: s, ..expand_init() }),
        ),
    decreases s.len(),
{
    if s.len() == 0 {
        assert(s =~= Seq::<char>::empty());
    } else {
        lemma_expand_plain_fold(s.drop_last(), vars);
        assert(s.drop_last().push(s.last()) =~= s);
    }
}

/// Law: the decimal text of a number is left exactly as it is by trimming
/// and by symbol expansion, whatever the variable table holds — the first
/// half of the display round trip for number literals (the second half is
/// the literal clause of `parse_expr`'s contract).
pub proof fn lemma_number_display_round_trip(n: int, vars: Seq<VarModel>)
    ensures
        trim_spec(dec_str(n)) == dec_str(n),
        expand_spec(dec_str(n), vars) == Result::<Seq<char>, Error>::Ok(dec_str(n)),
        expr_type_spec(dec_str(n)) == Result::<ValueType, Error>::Ok(ValueType::Number),
{
    lemma_dec_str_form(n);
    crate::text::lemma_trim_id(dec_str(n));
    lemma_expand_plain_fold(dec_str(n), vars);
}

/// A lone symbol accumulates through the whole fold.
proof fn lemma_sym_fold(s: Seq<char>, vars: Seq<VarModel>)
    requires
        s.len() > 0,
        ident_start_char(s[0]),
        forall|i: int| 1 <= i < s.len() ==> !sym_end_char(#[trigger] s[i]),
    ensures
        expand_fold(s, vars) == Result::<ExpandState, Error>::Ok(
            (ExpandState { in_sym: true, sym: s, ..expand_init() }),
        ),
    decreases s.len(),
{
    if s.len() == 1 {
        assert(s.drop_last() =~= Seq::<char>::empty());
        assert(seq![s[0]] =~= s);
    } else {
        lemma_sym_fold(s.drop_last(), vars);
        assert(s.drop_last().push(s.last()) =~= s);
    }
}

/// The expansion scanner carries a quoted text through untouched.
proof fn lemma_in_string_fold(t: Seq<char>, vars: Seq<VarModel>)
    requires
        forall|i: int| 0 <= i < t.len() ==> #[trigger] t[i] != '"' && t[i] != '\\',
    ensures
        expand_fold(seq!['"'] + t, vars) == Result::<ExpandState, Error>::Ok(
            (ExpandState { in_str: true, out: seq!['"'] + t, ..expand_init() }),
        ),
    decreases t.len(),
{
    if t.len() == 0 {
        let s = seq!['"'] + t;
        assert(s =~= seq!['"']);
        assert(s.drop_last() =~= Seq::<char>::empty());
        assert(s.last() == '"');
        assert(expand_fold(Seq::<char>::empty(), vars) == Result::<ExpandState, Error>::Ok(
            expand_init(),
        ));
        assert(expand_fold(s, vars) == expand_step(expand_init(), '"', vars));
        assert(Seq::<char>::empty().push('"') =~= s);
    } else {
        lemma_in_string_fold(t.drop_last(), vars);
        let s = seq!['"'] + t;
        assert(s.drop_last() =~= seq!['"'] + t.drop_last());
        assert(s.last() == t.last());
        let st = (ExpandState { in_str: true, out: seq!['"'] + t.drop_last(), ..expand_init() });
        assert(expand_fold(s, vars) == expand_step(st, t.last(), vars));
        assert(t.last() == t[t.len() - 1]);
        assert(t.last() != '"' && t.last() != '\\');
        assert((seq!['"'] + t.drop_last()).push(t.last()) =~= s);
    }
}

/// Law: identifiers inside a quoted string are not substituted — expanding
/// the quoted text yields it unchanged whatever the variable table holds
/// (in particular it does not fail for an undeclared name), while the same
/// bare name with no value fails with `UnknownSymbol`.
pub proof fn lemma_no_substitution_inside_strings(name: Seq<char>, vars: Seq<VarModel>)
    requires
        name.len() > 0,
        ident_start_char(name[0]),
        forall|i: int|
            0 <= i < name.len() ==> !sym_end_char(#[trigger] name[i]) && name[i] != '"' && name[i]
                != '\\',
    ensures
        expand_spec(seq!['"'] + name + seq!['"'], vars) == Result::<Seq<char>, Error>::Ok(
            seq!['"'] + name + seq!['"'],
        ),
        resolve(vars, name) is None ==> expand_spec(name, vars) == Result::<Seq<char>, Error>::Err(
            Error::UnknownSymbol,
        ),
{
    let q = seq!['"'] + name + seq!['"'];
    assert(q.drop_last() =~= seq!['"'] + name);
    assert(q.last() == '"');
    lemma_in_string_fold(name, vars);
    assert((seq!['"'] + name).push('"') =~= q);
    lemma_sym_fold(name, vars);
}

/// Law: a declared variable used as a lone symbol expands to the
/// source-literal text of its value, so evaluating the symbol equals
/// evaluating that text spliced in — for numbers always, for texts
/// whenever the text holds no quote or backslash (a quote inside the value
/// re-enters the scanner as a delimiter and breaks the textual reading).
pub proof fn lemma_symbol_substitution(name: Seq<char>, vars: Seq<VarModel>, v: ValueModel)
    requires
        name.len() > 0,
        ident_start_char(name[0]),
        forall|i: int|
            0 <= i < name.len() ==> !sym_end_char(#[trigger] name[i]) && !crate::text::is_space(
                name[i],
            ),
        resolve(vars, name) == Option::Some(v),
        v matches ValueModel::Str(t) ==> forall|i: int|
            0 <= i < t.len() ==> #[trigger] t[i] != '"' && t[i] != '\\',
    ensures
        expand_spec(name, vars) == Result::<Seq<char>, Error>::Ok(as_str_spec(v)),
        expand_spec(as_str_spec(v), vars) == Result::<Seq<char>, Error>::Ok(as_str_spec(v)),
        parse_expr_spec(name, vars) == parse_expr_spec(as_str_spec(v), vars),
{
    lemma_sym_fold(name, vars);
    assert(Seq::<char>::empty() + as_str_spec(v) =~= as_str_spec(v));
    match v {
        ValueModel::Number(n) => {
            lemma_number_display_round_trip(n, vars);
        },
        ValueModel::Str(t) => {
            let q = seq!['"'] + t + seq!['"'];
            assert(q.drop_last() =~= seq!['"'] + t);
            assert(q.last() == '"');
            lemma_in_string_fold(t, vars);
            assert((seq!['"'] + t).push('"') =~= q);
            assert(q[0] == '"');
            assert(q.last() == '"');
            crate::text::lemma_trim_id(q);
        },
    }
    // both sides expand to the same text, so the whole evaluation agrees
    crate::text::lemma_trim_id(name);
    assert(trim_spec(name) == name);
}

// ---------------------------------------------------------------------------
// Arithmetic evaluation (delegated)
// ---------------------------------------------------------------------------
/// The value the arithmetic evaluator gives to an expression text, already
/// coerced to the configured numeric width; `None` when it rejects the
/// text. A function of the text alone.
pub uninterp spec fn arith_eval(s: Seq<char>) -> Option<i64>;

/// Relies on meval::eval_str: evaluates a pure arithmetic expression. The
/// result depends on the expression text alone within one build of the
/// process (the builtin transcendentals go to the platform's math
/// library, whose last bit may differ across builds). meval reads numeric
/// literals with f64::from_str, which is exact for integers of magnitude
/// at most 2^53, and supports unary minus, so the decimal text of such an
/// integer evaluates to itself; the conversion to the configured 64-bit
/// integer width preserves it. A nonempty text of nothing but whitespace
/// makes meval's tokenizer panic on an incomplete parse, so the contract
/// demands a non-whitespace first character.
#[verifier::external_body]
fn eval_arith(expr: &str) -> (r: Option<i64>)
    requires
        expr@.len() > 0,
        !crate::text::is_space(expr@[0]),
    ensures
        r == arith_eval(expr@),
        forall|n: int|
            -9007199254740992 <= n <= 9007199254740992 && expr@ == dec_str(n) ==> r
                == Option::Some(n as i64),
{
    match meval::eval_str(expr) {
        Ok(x) => Option::Some(x as i64),
        Err(_) => Option::None,
    }
}

// ---------------------------------------------------------------------------
// Expression type classification
// ---------------------------------------------------------------------------
/// The type an expanded expression will evaluate to, judged by its leading
/// characters: a digit, or `-` followed by a digit, is numeric; a quote or
/// apostrophe is a string; anything else is invalid.
pub open spec fn expr_type_spec(s: Seq<char>) -> Result<ValueType, Error> {
    if s.len() == 0 {
        Result::Err(Error::EmptyExpression)
    } else if is_digit_char(s[0]) {
        Result::Ok(ValueType::Number)
    } else if s[0] == '-' {
        if s.len() >= 2 && is_digit_char(s[1]) {
            Result::Ok(ValueType::Number)
        } else {
            Result::Err(Error::InvalidExpressionType)
        }
    } else if s[0] == '\'' || s[0] == '"' {
        Result::Ok(ValueType::Str)
    } else {
        Result::Err(Error::InvalidExpressionType)
    }
}

/// Classifies an expanded expression by its leading characters.
fn expr_type(expr: &str) -> (r: Result<ValueType, Error>)
    ensures
        r == expr_type_spec(expr@),
{
    let n = expr.unicode_len();
    if n == 0 {
        return Result::Err(Error::EmptyExpression);
    }
    let c0 = expr.get_char(0);
    if '0' <= c0 && c0 <= '9' {
        Result::Ok(ValueType::Number)
    } else if c0 == '-' {
        if n >= 2 {
            let c1 = expr.get_char(1);
            if '0' <= c1 && c1 <= '9' {
                Result::Ok(ValueType::Number)
            } else {
                Result::Err(Error::InvalidExpressionType)
            }
        } else {
            Result::Err(Error::InvalidExpressionType)
        }
    } else if c0 == '\'' || c0 == '"' {
        Result::Ok(ValueType::Str)
    } else {
        Result::Err(Error::InvalidExpressionType)
    }
}

// ---------------------------------------------------------------------------
// Numeric parsing
// ---------------------------------------------------------------------------
/// Whether the text still contains a quote or apostrophe.
pub open spec fn has_quote(s: Seq<char>) -> bool {
    exists|i: int| 0 <= i < s.len() && (s[i] == '"' || s[i] == '\'')
}

fn has_quote_char(s: &str) -> (r: bool)
    ensures
        r == has_quote(s@),
{
    let n = s.unicode_len();
    let mut i: usize = 0;
    while i < n
        invariant
            i <= n,
            n == s@.len(),
            forall|j: int| 0 <= j < i ==> s@[j] != '"' && s@[j] != '\'',
        decreases n - i,
    {
        let c = s.get_char(i);
        if c == '"' || c == '\'' {
            return true;
        }
        i += 1;
    }
    false
}

/// What numeric parsing produces: an error if the text mixes in string or
/// character literals, else the arithmetic evaluator's verdict.
pub open spec fn parse_num_spec(s: Seq<char>) -> Result<ValueModel, Error> {
    if has_quote(s) {
        Result::Err(Error::StringInNumericExpression)
    } else {
        match arith_eval(s) {
            Option::Some(n) => Result::Ok(ValueModel::Number(n as int)),
            Option::None => Result::Err(Error::InvalidNumericExpression),
        }
    }
}

/// Parses an expanded numeric expression by delegating the arithmetic to
/// the evaluator; the decimal text of an integer of magnitude at most 2^53
/// always comes back as that integer. The caller has already classified
/// the text as numeric, so its first character is a digit or `-` — in
/// particular not whitespace, which the arithmetic evaluator demands.
fn parse_num(expr: &str) -> (r: Result<Value, Error>)
    requires
        expr@.len() > 0,
        !crate::text::is_space(expr@[0]),
    ensures
        res_model(r) == parse_num_spec(expr@),
        forall|n: int|
            -9007199254740992 <= n <= 9007199254740992 && expr@ == dec_str(n) ==> (r matches
            Result::Ok(v) && v@ == ValueModel::Number(n)),
{
    if has_quote_char(expr) {
        proof {
            assert forall|n: int|
                -9007199254740992 <= n <= 9007199254740992 && expr@ == dec_str(
                    n,
                ) implies false by {
                lemma_dec_str_form(n);
                let w = choose|i: int|
                    0 <= i < expr@.len() && (expr@[i] == '"' || expr@[i] == '\'');
                assert(is_digit_char(expr@[w]) || expr@[w] == '-');
            }
        }
        return Result::Err(Error::StringInNumericExpression);
    }
    match eval_arith(expr) {
        Option::Some(x) => Result::Ok(Value::Number(x)),
        Option::None => {
            proof {
                assert forall|n: int|
                    -9007199254740992 <= n <= 9007199254740992 && expr@ == dec_str(
                        n,
                    ) implies false by {}
            }
            Result::Err(Error::InvalidNumericExpression)
        },
    }
}

// ---------------------------------------------------------------------------
// String tokenization
// ---------------------------------------------------------------------------
/// The scanner state of the string tokenizer: inside a string, inside a
/// character literal, whether an operator separates us from the previous
/// literal, and the tokens built so far (always at least one).
pub ghost struct TokState {
    pub in_str: bool,
    pub in_char: bool,
    pub last_op: bool,
    pub toks: Seq<Seq<char>>,
}

pub open spec fn tok_init() -> TokState {
    TokState { in_str: false, in_char: false, last_op: true, toks: seq![Seq::empty()] }
}

/// Appends a character to the newest token.
pub open spec fn tok_push(st: TokState, c: char) -> TokState {
    TokState { toks: st.toks.update(st.toks.len() - 1, st.toks.last().push(c)), ..st }
}

/// One step of the string tokenizer. Inside a character literal every
/// character up to the closing apostrophe is content; inside a string
/// every character up to the closing quote is content; outside, a quote or
/// apostrophe opens a new token and demands a `+` since the previous one,
/// `+` records an operator, the other arithmetic operators and digits are
/// type errors, and anything else is skipped.
pub open spec fn tok_step(st: TokState, c: char) -> Result<TokState, Error> {
    if st.in_char {
        if c == '\'' {
            Result::Ok(TokState { in_char: false, ..st })
        } else {
            Result::Ok(tok_push(st, c))
        }
    } else if st.in_str {
        if c == '"' {
            Result::Ok(TokState { in_str: false, ..st })
        } else {
            Result::Ok(tok_push(st, c))
        }
    } else if c == '"' {
        if !st.last_op {
            Result::Err(Error::TypeMismatchInStringExpression)
        } else {
            Result::Ok(
                TokState { in_str: true, last_op: false, toks: st.toks.push(Seq::empty()), ..st },
            )
        }
    } else if c == '\'' {
        if !st.last_op {
            Result::Err(Error::TypeMismatchInStringExpression)
        } else {
            Result::Ok(
                TokState { in_char: true, last_op: false, toks: st.toks.push(Seq::empty()), ..st },
            )
        }
    } else if c == '+' {
        Result::Ok(TokState { last_op: true, ..st })
    } else if c == '-' || c == '*' || c == '/' {
        Result::Err(Error::TypeMismatchInStringExpression)
    } else if is_digit_char(c) {
        Result::Err(Error::TypeMismatchInStringExpression)
    } else {
        Result::Ok(st)
    }
}

pub open spec fn tok_fold(s: Seq<char>) -> Result<TokState, Error>
    decreases s.len(),
{
    if s.len() == 0 {
        Result::Ok(tok_init())
    } else {
        match tok_fold(s.drop_last()) {
            Result::Err(e) => Result::Err(e),
            Result::Ok(st) => tok_step(st, s.last()),
        }
    }
}

/// The tokens of a string expression, or the first error.
pub open spec fn str_tokens_spec(s: Seq<char>) -> Result<Seq<Seq<char>>, Error> {
    match tok_fold(s) {
        Result::Err(e) => Result::Err(e),
        Result::Ok(st) => Result::Ok(st.toks),
    }
}

proof fn lemma_tok_fold_err_persists(s: Seq<char>, k: int)
    requires
        0 <= k <= s.len(),
        tok_fold(s.take(k)) is Err,
    ensures
        tok_fold(s) == tok_fold(s.take(k)),
    decreases s.len() - k,
{
    if k == s.len() {
        assert(s.take(k) =~= s);
    } else {
        assert(s.take(k + 1).drop_last() =~= s.take(k));
        lemma_tok_fold_err_persists(s, k + 1);
    }
}

/// Splits a string expression into the `+`-joined literal contents.
fn parse_str_tokenize(expr: &str) -> (r: Result<Vec<String>, Error>)
    ensures
        match r {
            Result::Ok(v) => str_tokens_spec(expr@) == Result::<Seq<Seq<char>>, Error>::Ok(
                v.deep_view(),
            ),
            Result::Err(e) => str_tokens_spec(expr@) == Result::<Seq<Seq<char>>, Error>::Err(e),
        },
{
    let n = expr.unicode_len();
    let mut in_str = false;
    let mut in_char = false;
    let mut last_op = true;
    let mut tokens: Vec<String> = Vec::new();
    tokens.push(String::new());
    proof {
        assert(tokens.deep_view() =~= seq![Seq::<char>::empty()]);
    }
    let mut i: usize = 0;
    while i < n
        invariant
            i <= n,
            n == expr@.len(),
            tokens@.len() > 0,
            ({
                let st = TokState {
                    in_str: in_str,
                    in_char: in_char,
                    last_op: last_op,
                    toks: tokens.deep_view(),
                };
                tok_fold(expr@.take(i as int)) == Result::<TokState, Error>::Ok(st)
            }),
        decreases n - i,
    {
        let ghost pre = TokState {
            in_str: in_str,
            in_char: in_char,
            last_op: last_op,
            toks: tokens.deep_view(),
        };
        let c = expr.get_char(i);
        proof {
            assert(expr@.take(i as int + 1).drop_last() =~= expr@.take(i as int));
            assert(expr@.take(i as int + 1).last() == expr@[i as int]);
            assert(pre.toks.len() == tokens@.len());
        }
        if in_char {
            if c == '\'' {
                in_char = false;
            } else {
                let li = tokens.len() - 1;
                let mut t = tokens[li].clone();
                push_char(&mut t, c);
                tokens[li] = t;
                proof {
                    assert(tokens.deep_view() =~= tok_push(pre, c).toks);
                }
            }
        } else if in_str {
            if c == '"' {
                in_str = false;
            } else {
                let li = tokens.len() - 1;
                let mut t = tokens[li].clone();
                push_char(&mut t, c);
                tokens[li] = t;
                proof {
                    assert(tokens.deep_view() =~= tok_push(pre, c).toks);
                }
            }
        } else if c == '"' {
            if !last_op {
                proof {
                    lemma_tok_fold_err_persists(expr@, i as int + 1);
                }
                return Result::Err(Error::TypeMismatchInStringExpression);
            }
            last_op = false;
            in_str = true;
            tokens.push(String::new());
            proof {
                assert(tokens.deep_view() =~= pre.toks.push(Seq::<char>::empty()));
            }
        } else if c == '\'' {
            if !last_op {
                proof {
                    lemma_tok_fold_err_persists(expr@, i as int + 1);
                }
                return Result::Err(Error::TypeMismatchInStringExpression);
            }
            last_op = false;
            in_char = true;
            tokens.push(String::new());
            proof {
                assert(tokens.deep_view() =~= pre.toks.push(Seq::<char>::empty()));
            }
        } else if c == '+' {
            last_op = true;
        } else if c == '-' || c == '*' || c == '/' {
            proof {
                lemma_tok_fold_err_persists(expr@, i as int + 1);
            }
            return Result::Err(Error::TypeMismatchInStringExpression);
        } else if '0' <= c && c <= '9' {
            proof {
                lemma_tok_fold_err_persists(expr@, i as int + 1);
            }
            return Result::Err(Error::TypeMismatchInStringExpression);
        } else {
            // other characters outside literals are skipped
        }
        i += 1;
    }
    proof {
        assert(expr@.take(n as int) =~= expr@);
    }
    Result::Ok(tokens)
}

/// The concatenation of all tokens, in order.
pub open spec fn concat_toks(ts: Seq<Seq<char>>) -> Seq<char>
    decreases ts.len(),
{
    if ts.len() == 0 {
        Seq::empty()
    } else {
        concat_toks(ts.drop_last()) + ts.last()
    }
}

/// What string parsing produces: the concatenation of the `+`-joined
/// literal contents, as one text value.
pub open spec fn parse_str_spec(s: Seq<char>) -> Result<ValueModel, Error> {
    match str_tokens_spec(s) {
        Result::Err(e) => Result::Err(e),
        Result::Ok(ts) => Result::Ok(ValueModel::Str(concat_toks(ts))),
    }
}

/// Parses an expanded string expression: tokenizes it and concatenates the
/// tokens into one text value.
fn parse_str(expr: &str) -> (r: Result<Value, Error>)
    ensures
        res_model(r) == parse_str_spec(expr@),
{
    let tokens = match parse_str_tokenize(expr) {
        Result::Ok(t) => t,
        Result::Err(e) => {
            return Result::Err(e);
        },
    };
    let mut out = String::new();
    let mut i: usize = 0;
    let n = tokens.len();
    while i < n
        invariant
            i <= n,
            n == tokens@.len(),
            out@ == concat_toks(tokens.deep_view().take(i as int)),
        decreases n - i,
    {
        out.append(tokens[i].as_str());
        i += 1;
        proof {
            assert(tokens.deep_view().take(i as int).drop_last() =~= tokens.deep_view().take(
                i as int - 1,
            ));
            assert(tokens.deep_view().take(i as int).last() == tokens.deep_view()[i as int - 1]);
        }
    }
    proof {
        assert(tokens.deep_view().take(n as int) =~= tokens.deep_view());
    }
    Result::Ok(Value::Str(out))
}

// ---------------------------------------------------------------------------
// parse_expr
// ---------------------------------------------------------------------------
/// What evaluating an expression produces: trim, expand symbols, classify,
/// then parse numerically or as a string expression.
pub open spec fn parse_expr_spec(s: Seq<char>, vars: Seq<VarModel>) -> Result<ValueModel, Error> {
    match expand_spec(trim_spec(s), vars) {
        Result::Err(e) => Result::Err(e),
        Result::Ok(x) => match expr_type_spec(x) {
            Result::Err(e) => Result::Err(e),
            Result::Ok(ValueType::Number) => parse_num_spec(x),
            Result::Ok(ValueType::Str) => parse_str_spec(x),
        },
    }
}

/// Evaluates an expression against the environment's variable table.
///
/// The second clause is the literal round trip: whenever the trimmed,
/// expanded text is exactly the decimal text of an integer of magnitude at
/// most 2^53, the result is that number — so a Number value's display
/// text parses back to the value itself.
pub fn parse_expr(expr: &str, env: &Environment) -> (r: Result<Value, Error>)
    ensures
        res_model(r) == parse_expr_spec(expr@, env@.vars),
        forall|n: int|
            -9007199254740992 <= n <= 9007199254740992 && expand_spec(trim_spec(expr@), env@.vars)
                == Result::<Seq<char>, Error>::Ok(dec_str(n)) ==> (r matches Result::Ok(v) && v@
                == ValueModel::Number(n)),
{
    let mut nexp = trim(expr);
    match expand_syms(&mut nexp, env) {
        Result::Ok(_) => {},
        Result::Err(e) => {
            return Result::Err(e);
        },
    }
    match expr_type(nexp.as_str()) {
        Result::Err(e) => {
            proof {
                assert forall|n: int|
                    -9007199254740992 <= n <= 9007199254740992 && expand_spec(
                        trim_spec(expr@),
                        env@.vars,
                    ) == Result::<Seq<char>, Error>::Ok(dec_str(n)) implies false by {
                    lemma_dec_str_form(n);
                }
            }
            Result::Err(e)
        },
        Result::Ok(ValueType::Number) => {
            proof {
                // the classifier fixed the first character: a digit or `-`
                assert(nexp@.len() > 0);
                assert(is_digit_char(nexp@[0]) || nexp@[0] == '-');
                assert(!crate::text::is_space(nexp@[0]));
            }
            let r = parse_num(nexp.as_str());
            proof {
                assert forall|n: int|
                    -9007199254740992 <= n <= 9007199254740992 && expand_spec(
                        trim_spec(expr@),
                        env@.vars,
                    ) == Result::<Seq<char>, Error>::Ok(dec_str(n)) implies (r matches Result::Ok(v)
                    && v@ == ValueModel::Number(n)) by {
                    assert(nexp@ == dec_str(n));
                }
            }
            r
        },
        Result::Ok(ValueType::Str) => {
            let r = parse_str(nexp.as_str());
            proof {
                assert forall|n: int|
                    -9007199254740992 <= n <= 9007199254740992 && expand_spec(
                        trim_spec(expr@),
                        env@.vars,
                    ) == Result::<Seq<char>, Error>::Ok(dec_str(n)) implies false by {
                    lemma_dec_str_form(n);
                    assert(nexp@ == dec_str(n));
                }
            }
            r
        },
    }
}

// ---------------------------------------------------------------------------
// Argument lists
// ---------------------------------------------------------------------------
/// The pieces of a text split on every comma.
pub open spec fn split_commas(s: Seq<char>) -> Seq<Seq<char>>
    decreases s.len(),
{
    let i = find_char(s, ',');
    if i < 0 || i >= s.len() {
        seq![s]
    } else {
        seq![s.subrange(0, i)] + split_commas(s.subrange(i + 1, s.len() as int))
    }
}

/// Evaluates each piece in order; the first error wins.
pub open spec fn parse_list_spec(parts: Seq<Seq<char>>, vars: Seq<VarModel>) -> Result<
    Seq<ValueModel>,
    Error,
>
    decreases parts.len(),
{
    if parts.len() == 0 {
        Result::Ok(Seq::empty())
    } else {
        match parse_expr_spec(parts[0], vars) {
            Result::Err(e) => Result::Err(e),
            Result::Ok(v) => match parse_list_spec(parts.drop_first(), vars) {
                Result::Err(e) => Result::Err(e),
                Result::Ok(rest) => Result::Ok(seq![v] + rest),
            },
        }
    }
}

/// A `(` occurs, and no `)` before the first `(`.
pub open spec fn arg_list_open(s: Seq<char>) -> bool {
    find_char(s, '(') >= 0 && (find_char(s, ')') == -1 || find_char(s, '(') < find_char(s, ')'))
}

/// What expanding an argument list produces: the interior between the
/// first parentheses, split on commas when any, each piece evaluated; a
/// blank interior without commas is an empty list; a missing `)` is an
/// error.
pub open spec fn sym_list_spec(s: Seq<char>, vars: Seq<VarModel>) -> Result<Seq<ValueModel>, Error> {
    let a = find_char(s, '(');
    let b = find_char(s, ')');
    if b == -1 {
        Result::Err(Error::UnterminatedArgumentList)
    } else {
        let interior = s.subrange(a + 1, b);
        if find_char(interior, ',') != -1 {
            parse_list_spec(split_commas(interior), vars)
        } else if trim_spec(interior).len() == 0 {
            Result::Ok(Seq::empty())
        } else {
            match parse_expr_spec(interior, vars) {
                Result::Err(e) => Result::Err(e),
                Result::Ok(v) => Result::Ok(seq![v]),
            }
        }
    }
}

/// Model of a list evaluation result.
pub open spec fn list_res_model(r: Result<Vec<Value>, Error>) -> Result<Seq<ValueModel>, Error> {
    match r {
        Result::Ok(v) => Result::Ok(v.deep_view()),
        Result::Err(e) => Result::Err(e),
    }
}

impl DeepView for Value {
    type V = ValueModel;

    open spec fn deep_view(&self) -> ValueModel {
        self.view()
    }
}

/// Evaluates the comma-separated pieces of a text, left to right.
fn parse_split(s: &str, env: &Environment) -> (r: Result<Vec<Value>, Error>)
    ensures
        list_res_model(r) == parse_list_spec(split_commas(s@), env@.vars),
    decreases s@.len(),
{
    let n = s.unicode_len();
    match find_char_str(s, ',') {
        Option::None => {
            match parse_expr(s, env) {
                Result::Err(e) => {
                    proof {
                        assert(split_commas(s@) == seq![s@]);
                        assert(seq![s@][0] == s@);
                    }
                    Result::Err(e)
                },
                Result::Ok(v) => {
                    let mut out: Vec<Value> = Vec::new();
                    out.push(v);
                    proof {
                        assert(split_commas(s@) == seq![s@]);
                        assert(seq![s@][0] == s@);
                        let none = seq![s@].drop_first();
                        assert(none =~= Seq::<Seq<char>>::empty());
                        assert(parse_list_spec(none, env@.vars) == Result::<
                            Seq<ValueModel>,
                            Error,
                        >::Ok(Seq::<ValueModel>::empty()));
                        assert(out.deep_view() =~= seq![v@] + Seq::<ValueModel>::empty());
                    }
                    Result::Ok(out)
                },
            }
        },
        Option::Some(ix) => {
            proof {
                crate::text::lemma_find_char(s@, ',');
                assert(0 <= ix as int);
                assert((ix as int) < s@.len());
            }
            let head = s.substring_char(0, ix);
            let ghost parts = split_commas(s@);
            proof {
                assert(parts == seq![head@] + split_commas(s@.subrange(
                    ix as int + 1,
                    s@.len() as int,
                )));
                assert(parts[0] == head@);
            }
            match parse_expr(head, env) {
                Result::Err(e) => Result::Err(e),
                Result::Ok(v) => {
                    let rest = s.substring_char(ix + 1, n);
                    proof {
                        assert(parts.drop_first() =~= split_commas(rest@));
                    }
                    match parse_split(rest, env) {
                        Result::Err(e) => Result::Err(e),
                        Result::Ok(mut vs) => {
                            let ghost pre_vs = vs.deep_view();
                            vs.insert(0, v);
                            proof {
                                assert(vs.deep_view() =~= seq![v@] + pre_vs);
                            }
                            Result::Ok(vs)
                        },
                    }
                },
            }
        },
    }
}

/// Evaluates a call-style argument list: the expressions between the first
/// `(` and the first `)`, separated by commas. Fails with
/// `UnterminatedArgumentList` when the `)` is missing. The caller
/// guarantees the `(` (the interpreter checks before calling).
pub fn expand_sym_list(slist: &str, env: &mut Environment) -> (r: Result<Vec<Value>, Error>)
    requires
        arg_list_open(slist@),
    ensures
        final(env)@ == old(env)@,
        list_res_model(r) == sym_list_spec(slist@, old(env)@.vars),
{
    proof {
        crate::text::lemma_find_char(slist@, '(');
        crate::text::lemma_find_char(slist@, ')');
    }
    let a = match find_char_str(slist, '(') {
        Option::Some(a) => a,
        Option::None => {
            proof {
                assert(false);
            }
            return Result::Err(Error::UnterminatedArgumentList);
        },
    };
    let b = match find_char_str(slist, ')') {
        Option::Some(b) => b,
        Option::None => {
            return Result::Err(Error::UnterminatedArgumentList);
        },
    };
    let interior = slist.substring_char(a + 1, b);
    proof {
        assert(interior@ == slist@.subrange(a as int + 1, b as int));
    }
    match find_char_str(interior, ',') {
        Option::Some(_) => parse_split(interior, env),
        Option::None => {
            let t = trim(interior);
            if t.as_str().unicode_len() == 0 {
                let out: Vec<Value> = Vec::new();
                proof {
                    assert(out.deep_view() =~= Seq::<ValueModel>::empty());
                }
                Result::Ok(out)
            } else {
                match parse_expr(interior, env) {
                    Result::Err(e) => Result::Err(e),
                    Result::Ok(v) => {
                        let mut out: Vec<Value> = Vec::new();
                        out.push(v);
                        proof {
                            assert(out.deep_view() =~= seq![v@]);
                        }
                        Result::Ok(out)
                    },
                }
            }
        },
    }
}

} // verus!
