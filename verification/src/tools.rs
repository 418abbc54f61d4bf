//! The tool registry and dispatcher: a closed switch over the locally
//! registered tools (an exact integer calculator and a deterministic mock
//! weather report), each result pinned down by a specification function.

use vstd::prelude::*;

use crate::text::{
    contains_sub, contains_sub_exec, dec_str_int, find_sub, i64_to_string,
    lemma_find_sub_first_match, parse_i64, remove_spaces, spec_find_sub, spec_parse_i64, str_eq,
    without_spaces,
};

verus! {

/// A structured tool-call payload: named fields with string values, in order.
pub struct ToolInput {
    pub fields: Vec<(String, String)>,
}

impl View for ToolInput {
    type V = Seq<(Seq<char>, Seq<char>)>;

    open spec fn view(&self) -> Seq<(Seq<char>, Seq<char>)> {
        Seq::new(self.fields@.len(), |i: int| (self.fields@[i].0@, self.fields@[i].1@))
    }
}

/// The value of the first field named `name`, if any.
pub open spec fn lookup_field(fields: Seq<(Seq<char>, Seq<char>)>, name: Seq<char>) -> Option<
    Seq<char>,
>
    decreases fields.len(),
{
    if fields.len() == 0 {
        None
    } else if fields[0].0 == name {
        Some(fields[0].1)
    } else {
        lookup_field(fields.drop_first(), name)
    }
}

impl ToolInput {
    pub fn new() -> (r: ToolInput)
        ensures
            r@.len() == 0,
    {
        ToolInput { fields: Vec::new() }
    }

    pub fn push_field(&mut self, name: String, value: String)
        ensures
            final(self)@ == old(self)@.push((name@, value@)),
    {
        let ghost before = self@;
        self.fields.push((name, value));
        proof {
            assert(self@ =~= before.push((self.fields@.last().0@, self.fields@.last().1@)));
        }
    }

    /// The value of the first field named `name`, if any.
    pub fn get(&self, name: &str) -> (r: Option<&String>)
        ensures
            match r {
                Some(v) => lookup_field(self@, name@) == Some(v@),
                None => lookup_field(self@, name@) is None,
            },
    {
        proof {
            assert(self@.subrange(0, self@.len() as int) =~= self@);
        }
        self.get_from(name, 0)
    }

    fn get_from(&self, name: &str, i: usize) -> (r: Option<&String>)
        requires
            i <= self.fields@.len(),
        ensures
            match r {
                Some(v) => lookup_field(self@.subrange(i as int, self@.len() as int), name@)
                    == Some(v@),
                None => lookup_field(self@.subrange(i as int, self@.len() as int), name@) is None,
            },
        decreases self.fields@.len() - i,
    {
        let ghost tail = self@.subrange(i as int, self@.len() as int);
        if i == self.fields.len() {
            proof {
                assert(tail =~= Seq::<(Seq<char>, Seq<char>)>::empty());
            }
            None
        } else {
            proof {
                assert(tail[0] == self@[i as int]);
                assert(tail.drop_first() =~= self@.subrange(i + 1, self@.len() as int));
            }
            if str_eq(self.fields[i].0.as_str(), name) {
                Some(&self.fields[i].1)
            } else {
                self.get_from(name, i + 1)
            }
        }
    }
}

/// A tool the conversation engine can advertise and dispatch.
pub struct Tool {
    pub name: String,
    pub description: String,
    pub input_schema: InputSchema,
}

/// The shape of a tool's input: one required string field.
pub struct InputSchema {
    pub required_field: String,
    pub field_description: String,
}

/// The static tool registry advertised to the remote model.
pub fn get_tools() -> (r: Vec<Tool>)
    ensures
        r@.len() == 2,
        r@[0].name@ == "calculator"@,
        r@[0].description@ == "Perform mathematical calculations"@,
        r@[0].input_schema.required_field@ == "expression"@,
        r@[0].input_schema.field_description@ == "Mathematical expression to evaluate"@,
        r@[1].name@ == "weather"@,
        r@[1].description@ == "Get weather information for a location"@,
        r@[1].input_schema.required_field@ == "location"@,
        r@[1].input_schema.field_description@ == "City or location name"@,
{
    let mut tools: Vec<Tool> = Vec::new();
    tools.push(
        Tool {
            name: String::from_str("calculator"),
            description: String::from_str("Perform mathematical calculations"),
            input_schema: InputSchema {
                required_field: String::from_str("expression"),
                field_description: String::from_str("Mathematical expression to evaluate"),
            },
        },
    );
    tools.push(
        Tool {
            name: String::from_str("weather"),
            description: String::from_str("Get weather information for a location"),
            input_schema: InputSchema {
                required_field: String::from_str("location"),
                field_description: String::from_str("City or location name"),
            },
        },
    );
    tools
}

/// Why the calculator produced no numeric result.
#[derive(Clone, Copy, Debug, PartialEq, Eq, Structural)]
pub enum EvalError {
    /// Not one binary operation over two numerals, nor one bare numeral.
    Parse,
    /// The divisor is zero.
    DivideByZero,
    /// The exact result does not fit the result type.
    Overflow,
}

/// A tool call the dispatcher rejects outright.
#[derive(Debug, Clone)]
pub enum ToolError {
    /// The input lacks the field the tool's schema requires.
    MissingField(String),
    /// No registered tool has this name.
    UnknownTool(String),
}

/// Ghost image of a `ToolError`.
pub enum ToolErrorSpec {
    MissingField(Seq<char>),
    UnknownTool(Seq<char>),
}

impl View for ToolError {
    type V = ToolErrorSpec;

    open spec fn view(&self) -> ToolErrorSpec {
        match self {
            ToolError::MissingField(f) => ToolErrorSpec::MissingField(f@),
            ToolError::UnknownTool(n) => ToolErrorSpec::UnknownTool(n@),
        }
    }
}

pub open spec fn in_i64(v: int) -> bool {
    i64::MIN <= v <= i64::MAX
}

/// Division truncated toward zero, as the `/` of the machine integers works.
pub open spec fn trunc_div(a: int, b: int) -> int {
    if a >= 0 && b > 0 {
        a / b
    } else if a < 0 && b < 0 {
        (-a) / (-b)
    } else if a < 0 {
        -((-a) / b)
    } else {
        -(a / (-b))
    }
}

/// Exact result of one binary operation, or why there is none.
pub open spec fn apply_op(op: char, a: int, b: int) -> Result<int, EvalError> {
    if op == '/' {
        if b == 0 {
            Err(EvalError::DivideByZero)
        } else if in_i64(trunc_div(a, b)) {
            Ok(trunc_div(a, b))
        } else {
            Err(EvalError::Overflow)
        }
    } else {
        let v = if op == '+' {
            a + b
        } else if op == '-' {
            a - b
        } else {
            a * b
        };
        if in_i64(v) {
            Ok(v)
        } else {
            Err(EvalError::Overflow)
        }
    }
}

/// Split `s` at `c` when `c` occurs exactly once; otherwise nothing.
pub open spec fn split_single(s: Seq<char>, c: char) -> Option<(Seq<char>, Seq<char>)> {
    match spec_find_sub(s, seq![c]) {
        Some(j) => if contains_sub(s.subrange(j + 1, s.len() as int), seq![c]) {
            None
        } else {
            Some((s.subrange(0, j), s.subrange(j + 1, s.len() as int)))
        },
        None => None,
    }
}

/// The result of reading `s` as `<numeral> op <numeral>`, when `op` occurs
/// exactly once in `s`; `None` means this operator does not apply.
pub open spec fn binop_result(s: Seq<char>, op: char) -> Option<Result<int, EvalError>> {
    match split_single(s, op) {
        Some(parts) => Some(
            match (spec_parse_i64(parts.0), spec_parse_i64(parts.1)) {
                (Some(a), Some(b)) => apply_op(op, a, b),
                _ => Err(EvalError::Parse),
            },
        ),
        None => None,
    }
}

/// What the calculator computes: after removing spaces, the first operator
/// among `+ - * /` that occurs exactly once splits the expression into two
/// numerals; with no such operator the whole expression must be one numeral.
pub open spec fn spec_eval(expr: Seq<char>) -> Result<int, EvalError> {
    let s = without_spaces(expr);
    if binop_result(s, '+') is Some {
        binop_result(s, '+')->Some_0
    } else if binop_result(s, '-') is Some {
        binop_result(s, '-')->Some_0
    } else if binop_result(s, '*') is Some {
        binop_result(s, '*')->Some_0
    } else if binop_result(s, '/') is Some {
        binop_result(s, '/')->Some_0
    } else {
        match spec_parse_i64(s) {
            Some(v) => Ok(v),
            None => Err(EvalError::Parse),
        }
    }
}

/// The human-readable text for a failed evaluation.
pub open spec fn eval_error_text(e: EvalError) -> Seq<char> {
    match e {
        EvalError::Parse => "could not parse expression"@,
        EvalError::DivideByZero => "division by zero"@,
        EvalError::Overflow => "arithmetic overflow"@,
    }
}

/// The calculator's reply text for `expr`.
pub open spec fn calc_text(expr: Seq<char>) -> Seq<char> {
    match spec_eval(expr) {
        Ok(v) => "Result: "@ + dec_str_int(v),
        Err(e) => "Error: "@ + eval_error_text(e),
    }
}

/// The fixed-format mock weather report for `loc`.
pub open spec fn weather_text(loc: Seq<char>) -> Seq<char> {
    "Weather for "@ + loc + ":\n"@
        + "  temperature: 22 C\n  condition: Partly cloudy\n  humidity: 65%\n  wind: 10 km/h NE\n"@
}

/// What `handle_tool_call` returns for each tool name and input.
pub open spec fn spec_dispatch(name: Seq<char>, fields: Seq<(Seq<char>, Seq<char>)>) -> Result<
    Seq<char>,
    ToolErrorSpec,
> {
    if name == "calculator"@ {
        match lookup_field(fields, "expression"@) {
            Some(e) => Ok(calc_text(e)),
            None => Err(ToolErrorSpec::MissingField("expression"@)),
        }
    } else if name == "weather"@ {
        match lookup_field(fields, "location"@) {
            Some(l) => Ok(weather_text(l)),
            None => Err(ToolErrorSpec::MissingField("location"@)),
        }
    } else {
        Err(ToolErrorSpec::UnknownTool(name))
    }
}

/// Routes a tool call to the matching local capability.
pub struct McpHandler;

impl McpHandler {
    pub fn new() -> (r: Self) {
        McpHandler
    }

    /// Dispatch one tool call: `Ok` carries the tool's reply text; a missing
    /// required field or an unregistered name is rejected, exactly as
    /// `spec_dispatch` says.
    pub fn handle_tool_call(&self, name: &str, input: &ToolInput) -> (r: Result<String, ToolError>)
        ensures
            match r {
                Ok(text) => spec_dispatch(name@, input@) == Ok::<_, ToolErrorSpec>(text@),
                Err(e) => spec_dispatch(name@, input@) == Err::<Seq<char>, _>(e@),
            },
    {
        if str_eq(name, "calculator") {
            self.calculator(input)
        } else if str_eq(name, "weather") {
            self.weather(input)
        } else {
            Err(ToolError::UnknownTool(String::from_str(name)))
        }
    }

    fn calculator(&self, input: &ToolInput) -> (r: Result<String, ToolError>)
        ensures
            match r {
                Ok(text) => lookup_field(input@, "expression"@) matches Some(e) && text@
                    == calc_text(e),
                Err(e) => e@ == ToolErrorSpec::MissingField("expression"@) && lookup_field(
                    input@,
                    "expression"@,
                ) is None,
            },
    {
        let expression = match input.get("expression") {
            Some(e) => e,
            None => {
                return Err(ToolError::MissingField(String::from_str("expression")));
            },
        };
        match Self::evaluate_expression(expression.as_str()) {
            Ok(v) => {
                let mut text = String::from_str("Result: ");
                proof {
                    reveal_strlit("Result: ");
                }
                let num = i64_to_string(v);
                text.append(num.as_str());
                Ok(text)
            },
            Err(e) => {
                let mut text = String::from_str("Error: ");
                proof {
                    reveal_strlit("Error: ");
                }
                text.append(e.message());
                Ok(text)
            },
        }
    }

    fn weather(&self, input: &ToolInput) -> (r: Result<String, ToolError>)
        ensures
            match r {
                Ok(text) => lookup_field(input@, "location"@) matches Some(l) && text@
                    == weather_text(l),
                Err(e) => e@ == ToolErrorSpec::MissingField("location"@) && lookup_field(
                    input@,
                    "location"@,
                ) is None,
            },
    {
        let location = match input.get("location") {
            Some(l) => l,
            None => {
                return Err(ToolError::MissingField(String::from_str("location")));
            },
        };
        let mut text = String::from_str("Weather for ");
        proof {
            reveal_strlit("Weather for ");
        }
        text.append(location.as_str());
        text.append(":\n");
        proof {
            reveal_strlit(":\n");
        }
        text.append(
            "  temperature: 22 C\n  condition: Partly cloudy\n  humidity: 65%\n  wind: 10 km/h NE\n",
        );
        Ok(text)
    }

    /// Evaluate the restricted arithmetic subset: one `+ - * /` between two
    /// decimal integer numerals, or one bare numeral, spaces ignored.
    fn evaluate_expression(expr: &str) -> (r: Result<i64, EvalError>)
        ensures
            match spec_eval(expr@) {
                Ok(v) => r matches Ok(x) && x as int == v,
                Err(e) => r == Err::<i64, _>(e),
            },
    {
        let cleaned = remove_spaces(expr);
        proof {
            reveal_strlit("+");
            reveal_strlit("-");
            reveal_strlit("*");
            reveal_strlit("/");
            assert("+"@ =~= seq!['+']);
            assert("-"@ =~= seq!['-']);
            assert("*"@ =~= seq!['*']);
            assert("/"@ =~= seq!['/']);
        }
        if let Some(res) = Self::try_binop(&cleaned, "+", Ghost('+')) {
            return res;
        }
        if let Some(res) = Self::try_binop(&cleaned, "-", Ghost('-')) {
            return res;
        }
        if let Some(res) = Self::try_binop(&cleaned, "*", Ghost('*')) {
            return res;
        }
        if let Some(res) = Self::try_binop(&cleaned, "/", Ghost('/')) {
            return res;
        }
        match parse_i64(cleaned.as_str()) {
            Some(v) => Ok(v),
            None => Err(EvalError::Parse),
        }
    }

    /// Try one operator: `None` when it does not occur exactly once.
    fn try_binop(cleaned: &String, op_str: &str, Ghost(op): Ghost<char>) -> (r: Option<
        Result<i64, EvalError>,
    >)
        requires
            op_str@ == seq![op],
            op == '+' || op == '-' || op == '*' || op == '/',
        ensures
            match r {
                Some(res) => binop_result(cleaned@, op) matches Some(v) && (match v {
                    Ok(x) => res matches Ok(y) && y as int == x,
                    Err(e) => res == Err::<i64, _>(e),
                }),
                None => binop_result(cleaned@, op) is None,
            },
    {
        let n: usize = cleaned.as_str().unicode_len();
        let j = match find_sub(cleaned.as_str(), op_str) {
            Some(j) => j,
            None => {
                return None;
            },
        };
        proof {
            lemma_find_sub_first_match(cleaned@, op_str@);
        }
        let rest = cleaned.as_str().substring_char(j + 1, n);
        if contains_sub_exec(rest, op_str) {
            return None;
        }
        let left = cleaned.as_str().substring_char(0, j);
        let right = rest;
        let a = match parse_i64(left) {
            Some(a) => a,
            None => {
                return Some(Err(EvalError::Parse));
            },
        };
        let b = match parse_i64(right) {
            Some(b) => b,
            None => {
                return Some(Err(EvalError::Parse));
            },
        };
        Some(Self::apply_op_exec(a, b, op_str, Ghost(op)))
    }

    /// Perform one binary operation with exact overflow detection.
    fn apply_op_exec(a: i64, b: i64, op_str: &str, Ghost(op): Ghost<char>) -> (r: Result<
        i64,
        EvalError,
    >)
        requires
            op_str@ == seq![op],
            op == '+' || op == '-' || op == '*' || op == '/',
        ensures
            match apply_op(op, a as int, b as int) {
                Ok(v) => r matches Ok(x) && x as int == v,
                Err(e) => r == Err::<i64, _>(e),
            },
    {
        proof {
            reveal_strlit("+");
            reveal_strlit("-");
            reveal_strlit("*");
            reveal_strlit("/");
        }
        let c = op_str.get_char(0);
        if c == '/' {
            if b == 0 {
                return Err(EvalError::DivideByZero);
            }
            let neg_res: bool = (a < 0) != (b < 0);
            let mag_a: u64 = if a < 0 {
                (-(a as i128)) as u64
            } else {
                a as u64
            };
            let mag_b: u64 = if b < 0 {
                (-(b as i128)) as u64
            } else {
                b as u64
            };
            let q: u64 = mag_a / mag_b;
            proof {
                assert(q <= mag_a) by (nonlinear_arith)
                    requires
                        q == mag_a as int / mag_b as int,
                        mag_b >= 1,
                        mag_a >= 0,
                ;
            }
            if neg_res {
                let res: i64 = (-(q as i128)) as i64;
                assert(res as int == trunc_div(a as int, b as int));
                Ok(res)
            } else {
                if q > 0x7fffffffffffffffu64 {
                    assert(trunc_div(a as int, b as int) == q as int);
                    return Err(EvalError::Overflow);
                }
                assert(q as int == trunc_div(a as int, b as int));
                Ok(q as i64)
            }
        } else {
            proof {
                let wa = a as i128;
                let wb = b as i128;
                assert(wa * wb <= 0x40000000000000000000000000000000i128 && wa * wb
                    >= -0x40000000000000000000000000000000i128) by (nonlinear_arith)
                    requires
                        -0x8000000000000000i128 <= wa <= 0x7fffffffffffffffi128,
                        -0x8000000000000000i128 <= wb <= 0x7fffffffffffffffi128,
                ;
            }
            let wide: i128 = if c == '+' {
                a as i128 + b as i128
            } else if c == '-' {
                a as i128 - b as i128
            } else {
                a as i128 * b as i128
            };
            if wide < i64::MIN as i128 || wide > i64::MAX as i128 {
                Err(EvalError::Overflow)
            } else {
                Ok(wide as i64)
            }
        }
    }
}

impl EvalError {
    /// The human-readable text for this failure.
    pub fn message(&self) -> (r: &'static str)
        ensures
            r@ == eval_error_text(*self),
    {
        proof {
            reveal_strlit("could not parse expression");
            reveal_strlit("division by zero");
            reveal_strlit("arithmetic overflow");
        }
        match self {
            EvalError::Parse => "could not parse expression",
            EvalError::DivideByZero => "division by zero",
            EvalError::Overflow => "arithmetic overflow",
        }
    }
}

} // verus!
