//! Property filters: boolean expressions over the members of an event,
//! evaluated by evalexpr, with the functions `Has(name)`,
//! `Contains(a, b)`, `StartsWith(a, b)` and `EndsWith(a, b)`.

use vstd::prelude::*;
use evalexpr::{
    build_operator_tree, ContextWithMutableFunctions, ContextWithMutableVariables, EvalexprError,
    FloatType, Function, HashMapContext, Node, Value,
};
use crate::json::{JsonNode, JsonValue};
use crate::text::{
    chars_contain, chars_end_with, chars_of, chars_start_with, contains_text, ends_with_text, same_text,
    starts_with_text, str_eq,
};

verus! {

#[verifier::external_type_specification]
#[verifier::external_body]
pub struct ExNode(Node);

#[verifier::external_type_specification]
#[verifier::external_body]
pub struct ExHashMapContext(HashMapContext);

/// A value bound to a variable of a filter expression.
#[derive(Clone, Debug)]
pub enum EvalValue {
    Str(String),
    Int(i64),
    /// A floating-point number, by the bits of its `f64`.
    Float(u64),
    Bool(bool),
    Empty,
}

/// Whether two variable values have the same type.
pub open spec fn same_kind(a: EvalValue, b: EvalValue) -> bool {
    match (a, b) {
        (EvalValue::Str(_), EvalValue::Str(_)) => true,
        (EvalValue::Int(_), EvalValue::Int(_)) => true,
        (EvalValue::Float(_), EvalValue::Float(_)) => true,
        (EvalValue::Bool(_), EvalValue::Bool(_)) => true,
        (EvalValue::Empty, EvalValue::Empty) => true,
        _ => false,
    }
}

/// The three text tests offered to filter expressions.
#[derive(Clone, Copy, Debug, PartialEq, Eq, Structural)]
pub enum TextTest {
    Contains,
    StartsWith,
    EndsWith,
}

#[verifier::external_type_specification]
#[verifier::external_body]
pub struct ExExprValue(Value);

/// The evalexpr builtins that panic on some arguments, for which a filter
/// registers stand-ins that fail there instead.
#[derive(Clone, Copy, Debug, PartialEq, Eq, Structural)]
pub enum Builtin {
    /// `str::substring(s, start[, end])`: byte indices, which panic inside a character.
    Substring,
    /// `shl(a, b)`: panics on a shift outside `0..64`.
    Shl,
    /// `shr(a, b)`: panics on a shift outside `0..64`.
    Shr,
    /// `math::abs(n)`: panics on the least integer.
    Abs,
}

/// One argument of a builtin call, as the stand-ins read it.
#[derive(Debug)]
pub enum CallArg {
    Str(String),
    Int(i64),
    /// A floating-point number, by the bits of its `f64`.
    Float(u64),
    /// Any other value.
    Other,
}

/// A builtin call: a tuple of arguments, or one value.
pub struct BuiltinCall {
    pub tuple: bool,
    pub args: Vec<CallArg>,
}

/// What a stand-in gives back.
#[derive(Debug)]
pub enum BuiltinResult {
    Str(String),
    Int(i64),
    /// A floating-point number, by the bits of its `f64`.
    Float(u64),
    /// Evaluation fails.
    Failed,
}

/// A function registered in an evaluation context.
pub ghost enum ContextFunction {
    /// `Has(name)`: whether `name` is one of the given field names.
    Has(Set<Seq<char>>),
    /// A text test on a pair of strings.
    Text(TextTest),
    /// A panic-free stand-in for an evalexpr builtin (see `builtin_result`).
    Builtin(Builtin),
}

/// The outcome of evaluating a filter expression.
#[derive(Clone, Copy, Debug, PartialEq, Eq, Structural)]
pub enum EvalOutcome {
    /// The expression evaluated to a boolean.
    Bool(bool),
    /// The expression evaluated to a value that is not a boolean.
    NotBool,
    /// Evaluation failed.
    Failed,
}

/// The variables an evalexpr `HashMapContext` holds.
pub uninterp spec fn context_variables(c: HashMapContext) -> Map<Seq<char>, EvalValue>;

/// The functions an evalexpr `HashMapContext` holds, by name.
pub uninterp spec fn context_functions(c: HashMapContext) -> Map<Seq<char>, ContextFunction>;

/// No variables.
pub open spec fn no_variables() -> Map<Seq<char>, EvalValue> {
    Map::empty()
}

/// No functions.
pub open spec fn no_functions() -> Map<Seq<char>, ContextFunction> {
    Map::empty()
}

/// Whether evalexpr's `build_operator_tree` accepts an expression.
pub uninterp spec fn tree_builds(expr: Seq<char>) -> bool;

/// The `Display` text of the error evalexpr's `build_operator_tree` gives
/// for an expression it does not accept.
pub uninterp spec fn build_error_text(expr: Seq<char>) -> Seq<char>;

/// What evalexpr's `Node::eval_with_context` gives for the tree of an
/// expression in a context with the given variables and functions.
pub uninterp spec fn filter_outcome(
    expr: Seq<char>,
    vars: Map<Seq<char>, EvalValue>,
    funcs: Map<Seq<char>, ContextFunction>,
) -> EvalOutcome;

/// The variables after evalexpr's `HashMapContext::set_value`: a new name is
/// added; an existing one is replaced only by a value of the same type.
pub open spec fn set_variable(m: Map<Seq<char>, EvalValue>, k: Seq<char>, v: EvalValue) -> Map<Seq<char>, EvalValue> {
    if m.contains_key(k) && !same_kind(m[k], v) {
        m
    } else {
        m.insert(k, v)
    }
}

/// Calls evalexpr's `build_operator_tree`, turning its error into the
/// error's `Display` text; the contract names its success `tree_builds` and
/// that text `build_error_text`.
#[verifier::external_body]
fn build_tree(expr: &str) -> (r: Result<Node, String>)
    ensures
        r is Ok <==> tree_builds(expr@),
        r matches Err(m) ==> m@ == build_error_text(expr@),
{
    match build_operator_tree(expr) {
        Ok(tree) => Ok(tree),
        Err(e) => Err(e.to_string()),
    }
}

/// Calls evalexpr's `HashMapContext::new`, which holds no variables and no
/// functions.
#[verifier::external_body]
fn new_context() -> (r: HashMapContext)
    ensures
        context_variables(r) == no_variables(),
        context_functions(r) == no_functions(),
{
    HashMapContext::new()
}

/// Calls evalexpr's `HashMapContext::set_value` (its error is ignored): an
/// existing variable of another type is left as it was.
#[verifier::external_body]
fn context_set(ctx: &mut HashMapContext, name: &String, v: &EvalValue)
    ensures
        context_variables(*final(ctx)) == set_variable(context_variables(*old(ctx)), name@, *v),
        context_functions(*final(ctx)) == context_functions(*old(ctx)),
{
    let value = match v {
        EvalValue::Str(s) => Value::String(s.clone()),
        EvalValue::Int(i) => Value::Int(*i),
        EvalValue::Float(b) => Value::Float(FloatType::from_bits(*b)),
        EvalValue::Bool(b) => Value::Boolean(*b),
        EvalValue::Empty => Value::Empty,
    };
    let _ = ctx.set_value(name.clone(), value);
}

/// Calls evalexpr's `HashMapContext::set_function` to register `Has`, whose
/// closure answers with `has_field` on a string argument and fails on any
/// other argument.
#[verifier::external_body]
fn context_add_has(ctx: &mut HashMapContext, fields: Vec<String>)
    ensures
        context_variables(*final(ctx)) == context_variables(*old(ctx)),
        context_functions(*final(ctx)) == context_functions(*old(ctx)).insert(
            "Has"@,
            ContextFunction::Has(fields@.map_values(|f: String| f@).to_set()),
        ),
{
    let _ = ctx.set_function("Has".into(), Function::new(move |a| match a {
        Value::String(n) => Ok(Value::Boolean(has_field(&fields, n))),
        _ => Err(EvalexprError::expected_string(a.clone())),
    }));
}

/// Calls evalexpr's `HashMapContext::set_function` to register a text test
/// under `name`, whose closure answers with `pair_test` on a tuple argument
/// and fails where `pair_test` gives no answer and on any other argument.
#[verifier::external_body]
fn context_add_text_test(ctx: &mut HashMapContext, name: &str, kind: TextTest)
    ensures
        context_variables(*final(ctx)) == context_variables(*old(ctx)),
        context_functions(*final(ctx)) == context_functions(*old(ctx)).insert(name@, ContextFunction::Text(kind)),
{
    let _ = ctx.set_function(name.to_string(), Function::new(move |a| match a {
        Value::Tuple(t) => match pair_test(kind, &t.iter().map(|x| match x {
            Value::String(s) => Some(s.clone()),
            _ => None,
        }).collect()) {
            Some(b) => Ok(Value::Boolean(b)),
            None => Err(EvalexprError::expected_tuple(a.clone())),
        },
        _ => Err(EvalexprError::expected_tuple(a.clone())),
    }));
}

/// Calls evalexpr's `Node::eval_with_context` on the filter's tree; the
/// contract names the outcome `filter_outcome` of the filter's source text
/// (the tree is built from it by `compile`, the only constructor). The
/// functions the context holds do not panic, and the filter's context
/// registers its own functions under the names of the builtins that can
/// panic (see `builtin_result`), which evalexpr calls in their place.
/// Of one expression the outcome is stated, as evalexpr's tokenizer and
/// evaluator show it: `Has("n")`, with no `"` or `\\` in `n`, calls the
/// function registered as `Has` with the string `n`.
#[verifier::external_body]
fn evaluate(pf: &PropertyFilter, ctx: &HashMapContext) -> (r: EvalOutcome)
    ensures
        r == filter_outcome(pf@, context_variables(*ctx), context_functions(*ctx)),
        forall|n: Seq<char>| #![trigger has_call(n)]
            pf@ == has_call(n) && plain_string(n) && context_functions(*ctx).contains_key("Has"@)
            ==> (context_functions(*ctx)["Has"@] matches ContextFunction::Has(names)
                ==> r == EvalOutcome::Bool(names.contains(n))),
{
    match pf.tree.eval_with_context(ctx) {
        Ok(Value::Boolean(b)) => EvalOutcome::Bool(b),
        Ok(_) => EvalOutcome::NotBool,
        Err(_) => EvalOutcome::Failed,
    }
}

/// The characters of `s` from byte `a` to byte `b` of its UTF-8 encoding,
/// as `str::get(a..b)` gives them: `None` unless `a <= b <= ` the byte
/// length and both lie on character boundaries.
pub open spec fn byte_slice(s: Seq<char>, a: int, b: int) -> Option<Seq<char>> {
    let bytes = vstd::utf8::encode_utf8(s);
    if 0 <= a <= b <= bytes.len() && vstd::utf8::is_char_boundary(bytes, a)
        && vstd::utf8::is_char_boundary(bytes, b) {
        Some(vstd::utf8::decode_utf8(bytes.subrange(a, b)))
    } else {
        None
    }
}

/// Calls std's `str::get` on the byte range `a..b`; its documentation gives
/// `None` exactly where slicing would panic (see `byte_slice`).
#[verifier::external_body]
fn str_get_range(s: &str, a: usize, b: usize) -> (r: Option<String>)
    ensures
        match r {
            Some(t) => byte_slice(s@, a as int, b as int) == Some(t@),
            None => byte_slice(s@, a as int, b as int) is None,
        },
{
    s.get(a..b).map(|t| t.to_string())
}

/// Calls std's `str::get` on the byte range from `a` to the end.
#[verifier::external_body]
fn str_get_from(s: &str, a: usize) -> (r: Option<String>)
    ensures
        match r {
            Some(t) => byte_slice(s@, a as int, vstd::utf8::encode_utf8(s@).len() as int) == Some(t@),
            None => byte_slice(s@, a as int, vstd::utf8::encode_utf8(s@).len() as int) is None,
        },
{
    s.get(a..).map(|t| t.to_string())
}

/// Whether an integer argument is a usable byte index.
pub open spec fn index_arg(a: CallArg) -> bool {
    a matches CallArg::Int(i) && 0 <= i <= usize::MAX
}

/// What a stand-in gives for a call, following the evalexpr builtin it
/// replaces, and failing where that builtin panics:
/// - `str::substring`: two or three arguments, a string and byte indices;
///   the characters between the indices, failing unless they lie in order
///   on character boundaries (the end defaults to the byte length);
/// - `shl`, `shr`: two integers, the shift within `0..64`;
/// - `math::abs`: one number; an integer's absolute value (failing for the
///   least integer), or a float with its sign bit cleared.
pub open spec fn builtin_spec(b: Builtin, tuple: bool, args: Seq<CallArg>) -> BuiltinOutcome {
    match b {
        Builtin::Substring => {
            if tuple && 2 <= args.len() <= 3 && args[0] is Str && index_arg(args[1])
                && (args.len() == 3 ==> index_arg(args[2])) {
                let s = args[0]->Str_0@;
                let end = if args.len() == 3 { args[2]->Int_0 as int } else { vstd::utf8::encode_utf8(s).len() as int };
                match byte_slice(s, args[1]->Int_0 as int, end) {
                    Some(t) => BuiltinOutcome::Str(t),
                    None => BuiltinOutcome::Failed,
                }
            } else {
                BuiltinOutcome::Failed
            }
        },
        Builtin::Shl | Builtin::Shr => {
            if tuple && args.len() == 2 && args[0] is Int && args[1] is Int && 0 <= args[1]->Int_0 < 64 {
                let a = args[0]->Int_0;
                let k = args[1]->Int_0 as u64;
                BuiltinOutcome::Int(if b == Builtin::Shl { a << k } else { a >> k })
            } else {
                BuiltinOutcome::Failed
            }
        },
        Builtin::Abs => {
            if !tuple && args.len() == 1 {
                match args[0] {
                    CallArg::Int(n) => if n == i64::MIN { BuiltinOutcome::Failed } else {
                        BuiltinOutcome::Int(if n < 0 { (-n) as i64 } else { n })
                    },
                    CallArg::Float(f) => BuiltinOutcome::Float(f & 0x7fff_ffff_ffff_ffff),
                    _ => BuiltinOutcome::Failed,
                }
            } else {
                BuiltinOutcome::Failed
            }
        },
    }
}

/// What a stand-in gives back, with a string as its characters.
pub ghost enum BuiltinOutcome {
    Str(Seq<char>),
    Int(i64),
    Float(u64),
    Failed,
}

/// The outcome a stand-in's result stands for.
pub open spec fn outcome_of(r: BuiltinResult) -> BuiltinOutcome {
    match r {
        BuiltinResult::Str(s) => BuiltinOutcome::Str(s@),
        BuiltinResult::Int(i) => BuiltinOutcome::Int(i),
        BuiltinResult::Float(f) => BuiltinOutcome::Float(f),
        BuiltinResult::Failed => BuiltinOutcome::Failed,
    }
}

/// The result of a stand-in call (see `builtin_spec`).
pub fn builtin_result(b: Builtin, call: &BuiltinCall) -> (r: BuiltinResult)
    ensures
        outcome_of(r) == builtin_spec(b, call.tuple, call.args@),
{
    let args = &call.args;
    match b {
        Builtin::Substring => {
            if !call.tuple || args.len() < 2 || args.len() > 3 {
                return BuiltinResult::Failed;
            }
            let s = match &args[0] {
                CallArg::Str(s) => s,
                _ => return BuiltinResult::Failed,
            };
            let a = match &args[1] {
                CallArg::Int(i) => *i,
                _ => return BuiltinResult::Failed,
            };
            if a < 0 || (a as u64) > (usize::MAX as u64) {
                return BuiltinResult::Failed;
            }
            let got = if args.len() == 3 {
                let e = match &args[2] {
                    CallArg::Int(i) => *i,
                    _ => return BuiltinResult::Failed,
                };
                if e < 0 || (e as u64) > (usize::MAX as u64) {
                    return BuiltinResult::Failed;
                }
                str_get_range(s.as_str(), a as usize, e as usize)
            } else {
                str_get_from(s.as_str(), a as usize)
            };
            match got {
                Some(t) => BuiltinResult::Str(t),
                None => BuiltinResult::Failed,
            }
        },
        Builtin::Shl | Builtin::Shr => {
            if !call.tuple || args.len() != 2 {
                return BuiltinResult::Failed;
            }
            match (&args[0], &args[1]) {
                (CallArg::Int(a), CallArg::Int(k)) => {
                    if *k < 0 || *k >= 64 {
                        return BuiltinResult::Failed;
                    }
                    let k = *k as u64;
                    let a = *a;
                    BuiltinResult::Int(if b == Builtin::Shl { a << k } else { a >> k })
                },
                _ => BuiltinResult::Failed,
            }
        },
        Builtin::Abs => {
            if call.tuple || args.len() != 1 {
                return BuiltinResult::Failed;
            }
            match &args[0] {
                CallArg::Int(n) => {
                    if *n == i64::MIN {
                        BuiltinResult::Failed
                    } else {
                        BuiltinResult::Int(if *n < 0 { -*n } else { *n })
                    }
                },
                CallArg::Float(f) => BuiltinResult::Float(*f & 0x7fff_ffff_ffff_ffff),
                _ => BuiltinResult::Failed,
            }
        },
    }
}

/// Reads a builtin call's argument in the stand-ins' form: a tuple's
/// elements, or the one value, each as a string, an integer, the bits of a
/// float, or other.
#[verifier::external_body]
fn builtin_call(a: &Value) -> BuiltinCall {
    let arg = |v: &Value| match v {
        Value::String(s) => CallArg::Str(s.clone()),
        Value::Int(i) => CallArg::Int(*i),
        Value::Float(f) => CallArg::Float(f.to_bits()),
        _ => CallArg::Other,
    };
    match a {
        Value::Tuple(t) => BuiltinCall { tuple: true, args: t.iter().map(arg).collect() },
        v => BuiltinCall { tuple: false, args: vec![arg(v)] },
    }
}

/// Calls evalexpr's `HashMapContext::set_function` to register under `name`
/// the stand-in `b`, whose closure answers with `builtin_result` (an error
/// where it fails).
#[verifier::external_body]
fn context_add_builtin(ctx: &mut HashMapContext, name: &str, b: Builtin)
    ensures
        context_variables(*final(ctx)) == context_variables(*old(ctx)),
        context_functions(*final(ctx)) == context_functions(*old(ctx)).insert(name@, ContextFunction::Builtin(b)),
{
    let _ = ctx.set_function(name.to_string(), Function::new(move |a| match builtin_result(b, &builtin_call(a)) {
        BuiltinResult::Str(s) => Ok(Value::String(s)),
        BuiltinResult::Int(i) => Ok(Value::Int(i)),
        BuiltinResult::Float(f) => Ok(Value::Float(FloatType::from_bits(f))),
        BuiltinResult::Failed => Err(EvalexprError::CustomMessage(format!("{:?} failed", b))),
    }));
}

/// The expression `Has("n")`.
pub open spec fn has_call(n: Seq<char>) -> Seq<char> {
    seq!['H', 'a', 's', '(', '"'] + n + seq!['"', ')']
}

/// Whether a text can stand between the quotes of a string literal as it
/// is: it holds no `"` and no `\\`.
pub open spec fn plain_string(n: Seq<char>) -> bool {
    forall|i: int| 0 <= i < n.len() ==> n[i] != '"' && n[i] != '\\'
}

/// Whether `name` is one of `fields`.
pub fn has_field(fields: &Vec<String>, name: &str) -> (r: bool)
    ensures
        r == fields@.map_values(|f: String| f@).contains(name@),
{
    let ghost names = fields@.map_values(|f: String| f@);
    let mut i: usize = 0;
    while i < fields.len()
        invariant
            i <= fields.len(),
            names == fields@.map_values(|f: String| f@),
            forall|k: int| 0 <= k < i ==> names[k] != name@,
        decreases fields.len() - i,
    {
        if str_eq(fields[i].as_str(), name) {
            assert(names[i as int] == name@);
            return true;
        }
        i = i + 1;
    }
    false
}

/// Whether the text test `kind` holds of `a` and `b`.
pub open spec fn text_test_holds(kind: TextTest, a: Seq<char>, b: Seq<char>) -> bool {
    match kind {
        TextTest::Contains => contains_text(a, b),
        TextTest::StartsWith => starts_with_text(a, b),
        TextTest::EndsWith => ends_with_text(a, b),
    }
}

/// What a text test answers for the arguments of its call, strings given
/// as `Some`: no answer (an error) unless there are exactly two; the test on
/// two strings; `false` when either is not a string.
pub open spec fn pair_test_result(kind: TextTest, args: Seq<Option<String>>) -> Option<bool> {
    if args.len() != 2 {
        None
    } else {
        Some(args[0] is Some && args[1] is Some && text_test_holds(kind, args[0]->0@, args[1]->0@))
    }
}

/// What a text test answers for the arguments of its call (see
/// `pair_test_result`).
pub fn pair_test(kind: TextTest, args: &Vec<Option<String>>) -> (r: Option<bool>)
    ensures
        r == pair_test_result(kind, args@),
{
    if args.len() != 2 {
        return None;
    }
    match (&args[0], &args[1]) {
        (Some(a), Some(b)) => {
            let ac = chars_of(a.as_str());
            let bc = chars_of(b.as_str());
            Some(match kind {
                TextTest::Contains => chars_contain(&ac, &bc),
                TextTest::StartsWith => chars_start_with(&ac, &bc),
                TextTest::EndsWith => chars_end_with(&ac, &bc),
            })
        },
        _ => Some(false),
    }
}

/// The variable value a member of an event is bound to: strings, integers,
/// other numbers, booleans as such, `null` as empty, arrays and objects as
/// their JSON text.
pub open spec fn eval_value_of(v: JsonValue) -> EvalValue {
    match v.node {
        JsonNode::String(s) => EvalValue::Str(s),
        JsonNode::Number { integer, float_bits } => match integer {
            Some(i) => EvalValue::Int(i),
            None => match float_bits {
                Some(b) => EvalValue::Float(b),
                None => EvalValue::Empty,
            },
        },
        JsonNode::Bool(b) => EvalValue::Bool(b),
        JsonNode::Null => EvalValue::Empty,
        _ => EvalValue::Str(v.text),
    }
}

/// The variable value a member is bound to (see `eval_value_of`).
pub fn json_to_evalexpr(v: &JsonValue) -> (r: EvalValue)
    ensures
        r == eval_value_of(*v),
{
    match &v.node {
        JsonNode::String(s) => EvalValue::Str(s.clone()),
        JsonNode::Number { integer, float_bits } => match integer {
            Some(i) => EvalValue::Int(*i),
            None => match float_bits {
                Some(b) => EvalValue::Float(*b),
                None => EvalValue::Empty,
            },
        },
        JsonNode::Bool(b) => EvalValue::Bool(*b),
        JsonNode::Null => EvalValue::Empty,
        _ => EvalValue::Str(v.text.clone()),
    }
}

/// The variable name a member key is bound under: `@x` becomes `Exception`,
/// `@t`, `@l` and `@mt` are not bound, any other key is bound as it is.
pub open spec fn binding_name(k: Seq<char>) -> Option<Seq<char>> {
    if k == "@x"@ {
        Some("Exception"@)
    } else if k == "@t"@ || k == "@l"@ || k == "@mt"@ {
        None
    } else {
        Some(k)
    }
}

/// The variables bound for the members `entries`, set in order.
pub open spec fn variables_of(entries: Seq<(String, JsonValue)>) -> Map<Seq<char>, EvalValue>
    decreases entries.len(),
{
    if entries.len() == 0 {
        Map::empty()
    } else {
        let prev = variables_of(entries.drop_last());
        let e = entries.last();
        match binding_name(e.0@) {
            Some(n) => set_variable(prev, n, eval_value_of(e.1)),
            None => prev,
        }
    }
}

/// The field names that `Has` knows for the members `entries`.
pub open spec fn field_names_of(entries: Seq<(String, JsonValue)>) -> Set<Seq<char>>
    decreases entries.len(),
{
    if entries.len() == 0 {
        Set::empty()
    } else {
        let prev = field_names_of(entries.drop_last());
        match binding_name(entries.last().0@) {
            Some(n) => prev.insert(n),
            None => prev,
        }
    }
}

/// The functions offered to a filter, given the field names `Has` knows.
pub open spec fn filter_functions(fields: Set<Seq<char>>) -> Map<Seq<char>, ContextFunction> {
    Map::<Seq<char>, ContextFunction>::empty()
        .insert("Has"@, ContextFunction::Has(fields))
        .insert("Contains"@, ContextFunction::Text(TextTest::Contains))
        .insert("StartsWith"@, ContextFunction::Text(TextTest::StartsWith))
        .insert("EndsWith"@, ContextFunction::Text(TextTest::EndsWith))
        .insert("str::substring"@, ContextFunction::Builtin(Builtin::Substring))
        .insert("shl"@, ContextFunction::Builtin(Builtin::Shl))
        .insert("shr"@, ContextFunction::Builtin(Builtin::Shr))
        .insert("math::abs"@, ContextFunction::Builtin(Builtin::Abs))
}

/// Whether a compiled filter with source `expr` matches the event `raw`: only
/// objects can match, and then only when the expression evaluates to `true`.
pub open spec fn filter_matches(expr: Seq<char>, raw: JsonValue) -> bool {
    match raw.node {
        JsonNode::Object(entries) => filter_outcome(
            expr,
            variables_of(entries@),
            filter_functions(field_names_of(entries@)),
        ) == EvalOutcome::Bool(true),
        _ => false,
    }
}

/// The set of a sequence with one more element.
proof fn lemma_push_to_set(s: Seq<Seq<char>>, n: Seq<char>)
    ensures
        s.push(n).to_set() == s.to_set().insert(n),
{
    assert forall|x: Seq<char>| #[trigger] s.push(n).to_set().contains(x) == s.to_set().insert(n).contains(x) by {
        if s.contains(x) {
            let k = choose|k: int| 0 <= k < s.len() && s[k] == x;
            assert(s.push(n)[k] == x);
        }
        if x == n {
            assert(s.push(n)[s.len() as int] == n);
        }
        if s.push(n).contains(x) {
            let k = choose|k: int| 0 <= k < s.len() + 1 && s.push(n)[k] == x;
            if k < s.len() {
                assert(s[k] == x);
            }
        }
    }
    assert(s.push(n).to_set() =~= s.to_set().insert(n));
}

/// A compiled property filter expression, kept for reuse across records.
pub struct PropertyFilter {
    tree: Node,
    source: String,
}

impl View for PropertyFilter {
    type V = Seq<char>;

    /// The expression text the filter was compiled from.
    closed spec fn view(&self) -> Seq<char> {
        self.source@
    }
}

/// Why an expression could not be compiled.
pub struct FilterError {
    /// The description evalexpr gives, or why the expression is refused.
    pub message: String,
}

impl PropertyFilter {
    /// Compiles a filter expression; it fails, with evalexpr's message,
    /// exactly when evalexpr does not accept the expression.
    pub fn compile(expr: &str) -> (r: Result<PropertyFilter, FilterError>)
        ensures
            r is Ok <==> tree_builds(expr@),
            r matches Ok(pf) ==> pf@ == expr@,
            r matches Err(e) ==> e.message@ == build_error_text(expr@),
    {
        match build_tree(expr) {
            Ok(tree) => Ok(PropertyFilter { tree, source: expr.to_string() }),
            Err(m) => Err(FilterError { message: m }),
        }
    }

    /// Whether the event `raw` satisfies the filter (see `filter_matches`).
    /// A filter `Has("n")` matches exactly the objects with a member bound
    /// under the name `n` (see `field_names_of`).
    pub fn matches(&self, raw: &JsonValue) -> (r: bool)
        ensures
            r == filter_matches(self@, *raw),
            forall|n: Seq<char>| #![trigger has_call(n)] self@ == has_call(n) && plain_string(n)
                ==> (r <==> (raw.node matches JsonNode::Object(entries) && field_names_of(entries@).contains(n))),
    {
        let entries = match &raw.node {
            JsonNode::Object(entries) => entries,
            _ => return false,
        };
        let mut ctx = new_context();
        let mut fields: Vec<String> = Vec::new();
        let x_key = chars_of("@x");
        let t_key = chars_of("@t");
        let l_key = chars_of("@l");
        let mt_key = chars_of("@mt");
        let mut i: usize = 0;
        while i < entries.len()
            invariant
                i <= entries.len(),
                x_key@ == "@x"@ && t_key@ == "@t"@ && l_key@ == "@l"@ && mt_key@ == "@mt"@,
                context_variables(ctx) == variables_of(entries@.take(i as int)),
                context_functions(ctx) == no_functions(),
                fields@.map_values(|f: String| f@).to_set() == field_names_of(entries@.take(i as int)),
            decreases entries.len() - i,
        {
            let ghost t = entries@.take(i + 1);
            let ghost prev_fields = fields@;
            proof {
                assert(t.drop_last() =~= entries@.take(i as int));
                assert(t.last() == entries@[i as int]);
            }
            let value = json_to_evalexpr(&entries[i].1);
            if same_text(&x_key, entries[i].0.as_str()) {
                let name = "Exception".to_string();
                context_set(&mut ctx, &name, &value);
                fields.push(name);
            } else if same_text(&t_key, entries[i].0.as_str()) || same_text(&l_key, entries[i].0.as_str())
                || same_text(&mt_key, entries[i].0.as_str()) {
            } else {
                let name = entries[i].0.clone();
                context_set(&mut ctx, &name, &value);
                fields.push(name);
            }
            proof {
                assert(fields@.map_values(|f: String| f@) =~= match binding_name(entries@[i as int].0@) {
                    Some(n) => prev_fields.map_values(|f: String| f@).push(n),
                    None => prev_fields.map_values(|f: String| f@),
                });
                let old_names = prev_fields.map_values(|f: String| f@);
                match binding_name(entries@[i as int].0@) {
                    Some(n) => lemma_push_to_set(old_names, n),
                    None => {},
                }
                assert(fields@.map_values(|f: String| f@).to_set() =~= field_names_of(t));
            }
            i = i + 1;
        }
        assert(entries@.take(i as int) =~= entries@);
        context_add_has(&mut ctx, fields);
        context_add_text_test(&mut ctx, "Contains", TextTest::Contains);
        context_add_text_test(&mut ctx, "StartsWith", TextTest::StartsWith);
        context_add_text_test(&mut ctx, "EndsWith", TextTest::EndsWith);
        context_add_builtin(&mut ctx, "str::substring", Builtin::Substring);
        context_add_builtin(&mut ctx, "shl", Builtin::Shl);
        context_add_builtin(&mut ctx, "shr", Builtin::Shr);
        context_add_builtin(&mut ctx, "math::abs", Builtin::Abs);
        proof {
            reveal_strlit("Has");
            reveal_strlit("Contains");
            reveal_strlit("StartsWith");
            reveal_strlit("EndsWith");
            reveal_strlit("str::substring");
            reveal_strlit("shl");
            reveal_strlit("shr");
            reveal_strlit("math::abs");
            assert("Has"@.len() == 3 && "Contains"@.len() == 8 && "StartsWith"@.len() == 10 && "EndsWith"@.len() == 8);
            assert("str::substring"@.len() == 14 && "shl"@.len() == 3 && "shr"@.len() == 3 && "math::abs"@.len() == 9);
            assert("Has"@ != "Contains"@ && "Has"@ != "StartsWith"@ && "Has"@ != "EndsWith"@);
            assert("Has"@ != "str::substring"@ && "Has"@ != "math::abs"@);
            assert("Has"@[0] != "shl"@[0] && "Has"@[0] != "shr"@[0]);
            assert(context_functions(ctx) == filter_functions(field_names_of(entries@)));
            assert(context_functions(ctx).contains_key("Has"@));
            assert(context_functions(ctx)["Has"@] == ContextFunction::Has(field_names_of(entries@)));
        }
        match evaluate(self, &ctx) {
            EvalOutcome::Bool(b) => b,
            _ => false,
        }
    }
}

/// Law: an event member is bound as a value of its own kind: a string as
/// that string, a boolean as that boolean, an integer that fits an `i64` as
/// that integer, another number by its float bits, `null` as the empty
/// value, and an array or object as its JSON text.
pub proof fn law_member_binding(v: JsonValue)
    ensures
        v.node matches JsonNode::Bool(b) ==> eval_value_of(v) == EvalValue::Bool(b),
        v.node matches JsonNode::String(s) ==> eval_value_of(v) == EvalValue::Str(s),
        v.node matches JsonNode::Number { integer: Some(i), .. } ==> eval_value_of(v) == EvalValue::Int(i),
        v.node matches JsonNode::Number { integer: None, float_bits: Some(f) } ==> eval_value_of(v) == EvalValue::Float(f),
        v.node is Null ==> eval_value_of(v) == EvalValue::Empty,
        (v.node is Array || v.node is Object) ==> eval_value_of(v) == EvalValue::Str(v.text),
{
}

/// Law: the variable bound for the last member of an event with a given
/// binding name holds that member's value when no earlier member bound the
/// name to a value of another kind; in particular a boolean member is a
/// boolean variable of the same value.
pub proof fn law_member_variable(entries: Seq<(String, JsonValue)>)
    requires
        entries.len() > 0,
        binding_name(entries.last().0@) is Some,
    ensures
        ({
            let n = binding_name(entries.last().0@)->0;
            let prev = variables_of(entries.drop_last());
            (!prev.contains_key(n) || same_kind(prev[n], eval_value_of(entries.last().1)))
                ==> variables_of(entries)[n] == eval_value_of(entries.last().1)
        }),
{
}

} // verus!
