use csswitch_gateway::json::Json;
use csswitch_gateway::openai_responses::{
    anthropic_to_openai, is_dashscope_responses_endpoint, json_dumps_python_style, openai_to_anthropic, openai_to_anthropic_validated,
    python_spacing,
    origin_is_dashscope, ToolCallStop, RULE_PROVIDER_DASHSCOPE_RESPONSES_TOOLS_CAP, RULE_TOOL_DASHSCOPE_RESPONSES_WEB_SEARCH_DROP,
    TOOL_ARGUMENT_PROTOCOL_ERROR,
};
use csswitch_gateway::tool_schema::{tool_arguments_match_schema, validate_schema_instance, Check, QuotientTest};

fn j(text: &str) -> Json {
    Json::parse(text).unwrap()
}

fn fits(instance: &str, schema: &str) -> bool {
    let tree = j(schema);
    let none: Vec<QuotientTest> = Vec::new();
    let refs: Vec<String> = Vec::new();
    matches!(validate_schema_instance(&j(instance), &tree, &tree, &none, 65, 0, &refs), Check::Valid(_))
}

#[test]
fn types_and_constants_are_checked() {
    assert!(fits("1", r#"{"type":"integer"}"#));
    assert!(!fits("1.5", r#"{"type":"integer"}"#));
    assert!(fits("1.5", r#"{"type":["integer","number"]}"#));
    assert!(!fits("1", r#"{"type":[]}"#));
    assert!(fits("null", "true"));
    assert!(!fits("null", "false"));
    assert!(fits(r#"{"a":1}"#, r#"{"const":{"a":1}}"#));
    assert!(!fits("2", r#"{"enum":[1,3]}"#));
    assert!(!fits("2", r#"{"enum":[]}"#));
    assert!(!fits("2", r#"{"patternProperties":{}}"#));
}

#[test]
fn bounds_are_checked() {
    assert!(fits("3", r#"{"minimum":3,"maximum":3}"#));
    assert!(!fits("3", r#"{"exclusiveMinimum":3}"#));
    assert!(!fits("3.5", r#"{"exclusiveMaximum":3.5}"#));
    assert!(!fits("-1", r#"{"minimum":0}"#));
    assert!(!fits("3", r#"{"minimum":"0"}"#));
    assert!(fits(r#""é""#, r#"{"minLength":1,"maxLength":1}"#));
    assert!(!fits(r#""ab""#, r#"{"maxLength":1}"#));
    assert!(!fits("[1,1]", r#"{"uniqueItems":true}"#));
    assert!(fits("[1,1]", r#"{"uniqueItems":false,"minItems":2,"maxItems":2}"#));
    assert!(!fits("[1]", r#"{"minItems":2}"#));
}

#[test]
fn patterns_are_searched_for() {
    assert!(fits(r#""abc""#, r#"{"pattern":"b"}"#));
    assert!(!fits(r#""abc""#, r#"{"pattern":"^b"}"#));
    assert!(!fits(r#""abc""#, r#"{"pattern":"("}"#));
}

#[test]
fn objects_are_checked() {
    let schema = r#"{"type":"object","properties":{"q":{"type":"string"}},"required":["q"],"additionalProperties":false}"#;
    assert!(fits(r#"{"q":"x"}"#, schema));
    assert!(!fits("{}", schema));
    assert!(!fits(r#"{"q":1}"#, schema));
    assert!(!fits(r#"{"q":"x","r":1}"#, schema));
    assert!(!fits(r#"{"a":1}"#, r#"{"dependentRequired":{"a":["b"]}}"#));
    assert!(fits(r#"{"a":1,"b":2}"#, r#"{"dependentRequired":{"a":["b"]},"minProperties":2,"maxProperties":2}"#));
    assert!(!fits(r#"{"a":1}"#, r#"{"required":["a","a"]}"#));
}

#[test]
fn branches_and_references_are_followed() {
    assert!(fits("1", r#"{"anyOf":[{"type":"string"},{"type":"integer"}]}"#));
    assert!(!fits("1", r#"{"oneOf":[{"type":"number"},{"type":"integer"}]}"#));
    assert!(!fits("1", r#"{"allOf":[{"type":"number"},{"type":"string"}]}"#));
    assert!(!fits("1", r#"{"not":{"type":"integer"}}"#));
    assert!(!fits("1", r#"{"if":{"type":"integer"},"then":{"minimum":2},"else":true}"#));
    assert!(fits("1", r#"{"if":{"type":"string"},"then":false,"else":{"maximum":1}}"#));
    assert!(!fits("1", r#"{"then":true}"#));
    assert!(fits("1", r##"{"$defs":{"n":{"type":"integer"}},"$ref":"#/$defs/n"}"##));
    assert!(!fits("1", r##"{"$ref":"#/$defs/n"}"##));
    assert!(!fits("1", r##"{"$ref":"#"}"##));
}

#[test]
fn multiples_are_left_to_the_caller() {
    let schema = j(r#"{"type":"object","properties":{"n":{"multipleOf":0.5}}}"#);
    let arguments = j(r#"{"n":1.5}"#);
    let number = 1.5_f64.to_bits();
    let divisor = 0.5_f64.to_bits();
    assert_eq!(tool_arguments_match_schema(&arguments, &schema, &Vec::new()), Check::NeedsQuotient(number, divisor));
    let whole = vec![QuotientTest { number, divisor, whole: true }];
    assert!(matches!(tool_arguments_match_schema(&arguments, &schema, &whole), Check::Valid(_)));
    let broken = vec![QuotientTest { number, divisor, whole: false }];
    assert_eq!(tool_arguments_match_schema(&arguments, &schema, &broken), Check::Invalid);
}

fn calling(arguments: &str) -> Json {
    let call = Json::object()
        .and("type", Json::text("function_call"))
        .and("call_id", Json::text("c1"))
        .and("name", Json::text("find"))
        .and("arguments", Json::text(arguments));
    Json::object().and("status", Json::text("completed")).and("output", Json::array(vec![call]))
}

#[test]
fn tool_calls_are_held_to_their_schema() {
    let tools = j(r#"{"find":{"type":"object","properties":{"q":{"type":"string"}},"required":["q"]}}"#);
    let none: Vec<QuotientTest> = Vec::new();
    let message = openai_to_anthropic_validated(&calling(r#"{"q":"x"}"#), "m", &tools, &none).unwrap();
    assert_eq!(message, openai_to_anthropic(&calling(r#"{"q":"x"}"#), "m"));
    let content = message.array_at("content").unwrap();
    assert_eq!(content[0].str_at("type"), Some("tool_use"));
    assert_eq!(content[0].get("input").unwrap().str_at("q"), Some("x"));
    assert_eq!(message.str_at("stop_reason"), Some("tool_use"));
    for arguments in [r#"{"q":1}"#, "{}", "not json", "[]"] {
        match openai_to_anthropic_validated(&calling(arguments), "m", &tools, &none) {
            Err(ToolCallStop::Rejected(error)) => assert_eq!(error, TOOL_ARGUMENT_PROTOCOL_ERROR),
            _ => panic!("{arguments} was taken"),
        }
    }
}

#[test]
fn requests_become_responses_requests() {
    let request = j(r#"{"system":[{"text":"a"},{"text":"b"}],"max_tokens":100000,"tools":[{"name":"web_search"},{"name":"f"}],"messages":[{"role":"user","content":"hi"},{"role":"assistant","content":[{"type":"text","text":"x"},{"type":"tool_use","id":"c","name":"f","input":{"a":[1,2]}}]}]}"#);
    let (plain, metadata) = anthropic_to_openai(&request, "m", false).unwrap();
    assert_eq!(plain.str_at("instructions"), Some("a\nb"));
    assert_eq!(plain.u64_at("max_output_tokens"), Some(65_536));
    assert_eq!(plain.array_at("tools").unwrap().len(), 2);
    assert!(metadata.rule_ids.is_empty());
    let input = plain.array_at("input").unwrap();
    assert_eq!(input.len(), 3);
    assert_eq!(input[2].str_at("arguments"), Some(r#"{"a": [1, 2]}"#));
    let (capped, metadata) = anthropic_to_openai(&request, "m", true).unwrap();
    assert_eq!(capped.u64_at("max_output_tokens"), Some(8_192));
    assert_eq!(capped.array_at("tools").unwrap().len(), 1);
    assert_eq!(
        metadata.rule_ids,
        vec![RULE_TOOL_DASHSCOPE_RESPONSES_WEB_SEARCH_DROP.to_string(), RULE_PROVIDER_DASHSCOPE_RESPONSES_TOOLS_CAP.to_string()]
    );
    assert_eq!(
        anthropic_to_openai(&j("{}"), "m", false).unwrap_err(),
        "request body must be a JSON object with a 'messages' array"
    );
}

#[test]
fn python_spacing_leaves_strings_alone() {
    assert_eq!(python_spacing(r#"{"a":"b,c:d\"","e":[1,2]}"#), r#"{"a": "b,c:d\"", "e": [1, 2]}"#);
    assert_eq!(json_dumps_python_style(&j(r#"{"a":"b,c:d\"","e":1}"#)), r#"{"a": "b,c:d\"", "e": 1}"#);
}

#[test]
fn only_the_known_host_is_dashscope() {
    assert!(origin_is_dashscope("https", Some("dashscope.aliyuncs.com")));
    assert!(!origin_is_dashscope("https", Some("dashscope.example.com")));
    assert!(!origin_is_dashscope("https", None));
    assert!(!is_dashscope_responses_endpoint("relay", "not a url"));
}

#[test]
fn negations_turn_the_answer_round() {
    for (instance, schema) in [("1", r#"{"type":"integer"}"#), ("1", r#"{"type":"string"}"#), ("[]", "true"), ("{}", "false"), ("2", r#"{"enum":[1,2]}"#)] {
        let negated = format!("{{\"not\":{schema}}}");
        assert_eq!(fits(instance, &negated), !fits(instance, schema), "{schema}");
        assert_eq!(fits(instance, &format!("{{\"not\":{negated}}}")), fits(instance, schema), "{schema}");
    }
}
