use claude_chat::tools::{get_tools, McpHandler, ToolError, ToolInput};

fn calc_input(expr: &str) -> ToolInput {
    let mut input = ToolInput::new();
    input.push_field(String::from("expression"), String::from(expr));
    input
}

fn call(name: &str, input: &ToolInput) -> Result<String, ToolError> {
    McpHandler::new().handle_tool_call(name, input)
}

#[test]
fn calculator_addition() {
    let r = call("calculator", &calc_input("2 + 3")).unwrap();
    assert_eq!(r, "Result: 5");
}

#[test]
fn calculator_division_by_zero_reports_error() {
    let r = call("calculator", &calc_input("10/0")).unwrap();
    assert_eq!(r, "Error: division by zero");
}

#[test]
fn calculator_two_operators_is_a_parse_error() {
    let r = call("calculator", &calc_input("2+3*4")).unwrap();
    assert_eq!(r, "Error: could not parse expression");
}

#[test]
fn calculator_subtraction_multiplication_division() {
    assert_eq!(call("calculator", &calc_input("10-4")).unwrap(), "Result: 6");
    assert_eq!(call("calculator", &calc_input("7*6")).unwrap(), "Result: 42");
    assert_eq!(call("calculator", &calc_input("7/2")).unwrap(), "Result: 3");
    assert_eq!(call("calculator", &calc_input("-9 / 2")).unwrap(), "Error: could not parse expression");
}

#[test]
fn calculator_bare_number_and_negative_result() {
    assert_eq!(call("calculator", &calc_input("42")).unwrap(), "Result: 42");
    assert_eq!(call("calculator", &calc_input("5-9")).unwrap(), "Result: -4");
}

#[test]
fn calculator_overflow_reports_error() {
    let r = call("calculator", &calc_input("9223372036854775807+1")).unwrap();
    assert_eq!(r, "Error: arithmetic overflow");
}

#[test]
fn calculator_bare_negative_splits_as_subtraction_and_fails() {
    // "-5" splits at the lone minus into an empty left operand.
    let r = call("calculator", &calc_input("-5")).unwrap();
    assert_eq!(r, "Error: could not parse expression");
}

#[test]
fn calculator_ignores_all_spaces() {
    let r = call("calculator", &calc_input("  12   *   12 ")).unwrap();
    assert_eq!(r, "Result: 144");
}

#[test]
fn calculator_garbage_is_a_parse_error() {
    let r = call("calculator", &calc_input("two plus two")).unwrap();
    assert_eq!(r, "Error: could not parse expression");
}

#[test]
fn calculator_missing_expression_field() {
    let mut input = ToolInput::new();
    input.push_field(String::from("other"), String::from("1"));
    let r = call("calculator", &input);
    assert!(matches!(r, Err(ToolError::MissingField(f)) if f == "expression"));
}

#[test]
fn weather_mock_report() {
    let mut input = ToolInput::new();
    input.push_field(String::from("location"), String::from("Paris"));
    let r = call("weather", &input).unwrap();
    assert!(r.starts_with("Weather for Paris:\n"));
    assert!(r.contains("temperature"));
    assert!(r.contains("condition"));
    assert!(r.contains("humidity"));
    assert!(r.contains("wind"));
}

#[test]
fn weather_missing_location_field() {
    let input = ToolInput::new();
    let r = call("weather", &input);
    assert!(matches!(r, Err(ToolError::MissingField(f)) if f == "location"));
}

#[test]
fn unknown_tool_is_rejected() {
    let input = ToolInput::new();
    let r = call("translator", &input);
    assert!(matches!(r, Err(ToolError::UnknownTool(n)) if n == "translator"));
}

#[test]
fn registry_advertises_both_tools() {
    let tools = get_tools();
    assert_eq!(tools.len(), 2);
    assert_eq!(tools[0].name, "calculator");
    assert_eq!(tools[0].input_schema.required_field, "expression");
    assert_eq!(tools[1].name, "weather");
    assert_eq!(tools[1].input_schema.required_field, "location");
}
