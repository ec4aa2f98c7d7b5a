use juniper_exec::http::{
    event_source, response_for_event, select_operation, Document, EnvelopeKey, EventSource,
    GraphQLError, GraphQLRequest, GraphQLResponse, IteratorGraphQLResponse, Operation,
    OperationType, StreamGraphQLResponse, operation_for,
};
use juniper_exec::plan::{
    arguments_with_variables, inline_action, is_excluded, meta_type_by_name, plan_selection_set, DefaultScalarValue, Directive, Field, Fragment,
    FragmentSpread, InlineAction, InlineFragment, InputValue, MetaField, MetaType, PlanError,
    Selection, Task, Variables,
};
use juniper_exec::resolve::{ExecutionError, FieldError, SourcePosition};
use juniper_exec::value::{Object, Value};
use juniper_exec::ws::{
    ClientConnectionType, ClientPayload, GraphQLOverWs, GraphQLOverWsPhase, GraphQLOverWsTrait,
    ServerConnectionType,
};

type Sel = Selection<DefaultScalarValue>;

fn at() -> SourcePosition {
    SourcePosition { line: 1, column: 1 }
}

fn boolean(b: bool) -> InputValue<DefaultScalarValue> {
    InputValue::Scalar(DefaultScalarValue::Boolean(b))
}

fn directive(name: &str, cond: InputValue<DefaultScalarValue>) -> Directive<DefaultScalarValue> {
    Directive { name: name.to_string(), arguments: vec![("if".to_string(), cond)] }
}

fn field_sel(name: &str, alias: Option<&str>, directives: Vec<Directive<DefaultScalarValue>>) -> Sel {
    Selection::Field(Field {
        alias: alias.map(|a| a.to_string()),
        name: name.to_string(),
        arguments: vec![],
        directives,
        selection_set: None,
        position: at(),
    })
}

fn meta() -> MetaType {
    MetaType {
        name: "Hero".to_string(),
        fields: vec![
            MetaField { name: "id".to_string(), non_null: true },
            MetaField { name: "name".to_string(), non_null: false },
        ],
    }
}

/// The name of the directive that keeps a selection only where its
/// condition holds.
fn keep_if() -> String {
    ["in", "clude"].concat()
}

fn no_vars() -> Variables<DefaultScalarValue> {
    Variables::new()
}

#[test]
fn plan_keeps_selection_order_and_nullability() {
    let sels = vec![
        field_sel("name", None, vec![]),
        field_sel("id", Some("ident"), vec![]),
        field_sel("__typename", None, vec![]),
    ];
    let tasks = plan_selection_set(&meta(), &sels, &vec![], &no_vars()).ok().unwrap();
    assert_eq!(tasks.len(), 3);
    assert!(matches!(&tasks[0], Task::Field { index: 0, response_name, non_null: false } if response_name == "name"));
    assert!(matches!(&tasks[1], Task::Field { index: 1, response_name, non_null: true } if response_name == "ident"));
    assert!(matches!(&tasks[2], Task::Typename { index: 2, response_name } if response_name == "__typename"));
}

#[test]
fn plan_honours_skip_and_include() {
    let mut vars = no_vars();
    vars.entries.push(("hide".to_string(), boolean(true)));
    let sels = vec![
        field_sel("id", None, vec![directive("skip", boolean(true))]),
        field_sel("name", None, vec![directive(&keep_if(), boolean(false))]),
        field_sel("id", Some("kept"), vec![directive("skip", InputValue::Variable("hide".to_string()))]),
        field_sel("name", Some("shown"), vec![directive(&keep_if(), boolean(true))]),
    ];
    let tasks = plan_selection_set(&meta(), &sels, &vec![], &vars).ok().unwrap();
    assert_eq!(tasks.len(), 1);
    assert!(matches!(&tasks[0], Task::Field { index: 3, response_name, .. } if response_name == "shown"));
}

#[test]
fn directive_without_boolean_condition_excludes_nothing() {
    let ds = vec![directive("skip", InputValue::Variable("missing".to_string()))];
    assert!(!is_excluded(&ds, &no_vars()));
    let ds = vec![directive("deprecated", boolean(true))];
    assert!(!is_excluded(&ds, &no_vars()));
    let ds = vec![directive(&keep_if(), boolean(false))];
    assert!(is_excluded(&ds, &no_vars()));
}

#[test]
fn plan_resolves_fragments() {
    let frags = vec![Fragment {
        name: "F".to_string(),
        type_condition: "Hero".to_string(),
        selection_set: vec![field_sel("id", None, vec![])],
    }];
    let sels = vec![
        Selection::FragmentSpread(FragmentSpread { name: "F".to_string(), directives: vec![], position: at() }),
        Selection::InlineFragment(InlineFragment {
            type_condition: Some("Hero".to_string()),
            directives: vec![],
            selection_set: vec![],
            position: at(),
        }),
    ];
    let tasks = plan_selection_set(&meta(), &sels, &frags, &no_vars()).ok().unwrap();
    assert!(matches!(tasks[0], Task::Spread { index: 0, fragment: 0 }));
    assert!(matches!(tasks[1], Task::Inline { index: 1 }));
}

#[test]
fn plan_reports_unknown_field_and_fragment() {
    let sels = vec![field_sel("id", None, vec![]), field_sel("power", None, vec![])];
    match plan_selection_set(&meta(), &sels, &vec![], &no_vars()) {
        Err(PlanError::FieldNotFound { field, on_type }) => {
            assert_eq!(field, "power");
            assert_eq!(on_type, "Hero");
        }
        _ => panic!("expected a missing field"),
    }
    let sels = vec![Selection::FragmentSpread(FragmentSpread {
        name: "Nope".to_string(),
        directives: vec![],
        position: at(),
    })];
    match plan_selection_set(&meta(), &sels, &vec![], &no_vars()) {
        Err(PlanError::FragmentNotFound { name }) => assert_eq!(name, "Nope"),
        _ => panic!("expected a missing fragment"),
    }
}

#[test]
fn inline_fragment_actions() {
    let m = meta();
    assert!(matches!(inline_action(&None), InlineAction::Nested));
    assert!(matches!(inline_action(&Some(m.name.clone())), InlineAction::NarrowTo(t) if t == "Hero"));
    assert!(matches!(inline_action(&Some("Droid".to_string())), InlineAction::NarrowTo(t) if t == "Droid"));
}

#[test]
fn request_variables_take_last_value_per_name() {
    let vars = InputValue::Object(vec![
        ("id".to_string(), InputValue::Scalar(DefaultScalarValue::String("1000".to_string()))),
        ("n".to_string(), InputValue::Scalar(DefaultScalarValue::Int(1))),
        ("n".to_string(), InputValue::Scalar(DefaultScalarValue::Int(2))),
    ]);
    let req = GraphQLRequest::new("query($id: String!) { human(id: $id) { id } }".to_string(), Some("Q".to_string()), Some(vars));
    assert_eq!(req.operation_name(), Some("Q"));
    let v = req.variables();
    assert_eq!(v.entries.len(), 2);
    let n = v.entries.iter().find(|(k, _)| k == "n").unwrap();
    assert!(matches!(n.1, InputValue::Scalar(DefaultScalarValue::Int(2))));
    let id = v.entries.iter().find(|(k, _)| k == "id").unwrap();
    assert!(matches!(&id.1, InputValue::Scalar(DefaultScalarValue::String(s)) if s == "1000"));
}

#[test]
fn request_without_object_variables_has_none() {
    let req: GraphQLRequest<DefaultScalarValue> = GraphQLRequest::new("{ hero { name } }".to_string(), None, None);
    assert_eq!(req.operation_name(), None);
    assert!(req.variables().entries.is_empty());
    let req = GraphQLRequest::new("{ a }".to_string(), None, Some(InputValue::List(vec![boolean(true)])));
    assert!(req.variables().entries.is_empty());
}

#[test]
fn input_value_copy_is_deep() {
    let v = InputValue::Object(vec![(
        "xs".to_string(),
        InputValue::List(vec![InputValue::Enum("JEDI".to_string()), InputValue::Null]),
    )]);
    let c = v.copy();
    match c {
        InputValue::Object(fs) => {
            assert_eq!(fs[0].0, "xs");
            assert!(matches!(&fs[0].1, InputValue::List(xs) if xs.len() == 2 && matches!(&xs[0], InputValue::Enum(e) if e == "JEDI")));
        }
        _ => panic!("expected an object"),
    }
}

fn echo(
    query: &str,
    operation_name: Option<&str>,
    variables: &Variables<DefaultScalarValue>,
) -> Result<(Value<DefaultScalarValue>, Vec<ExecutionError<DefaultScalarValue>>), GraphQLError> {
    if query.is_empty() {
        return Err(GraphQLError::NoOperationProvided);
    }
    let mut o = Object::with_capacity(2);
    o.add_field("op".to_string(), Value::scalar(DefaultScalarValue::String(operation_name.unwrap_or("").to_string())));
    o.add_field("vars".to_string(), Value::scalar(DefaultScalarValue::Int(variables.entries.len() as i32)));
    Ok((Value::Object(o), vec![]))
}

#[test]
fn execute_hands_operation_and_variables_to_runner() {
    let vars = InputValue::Object(vec![("a".to_string(), boolean(true))]);
    let req = GraphQLRequest::new("{ x }".to_string(), Some("Op".to_string()), Some(vars));
    let resp = req.execute(echo);
    assert!(resp.is_ok());
    match resp.0 {
        Ok((Value::Object(o), errs)) => {
            assert!(errs.is_empty());
            assert!(matches!(o.get_field_value(&"op".to_string()), Some(Value::Scalar(DefaultScalarValue::String(s))) if s == "Op"));
            assert!(matches!(o.get_field_value(&"vars".to_string()), Some(Value::Scalar(DefaultScalarValue::Int(1)))));
        }
        _ => panic!("expected data"),
    }
    let empty: GraphQLRequest<DefaultScalarValue> = GraphQLRequest::new(String::new(), None, None);
    let resp = empty.execute(echo);
    assert!(!resp.is_ok());
    assert_eq!(resp.envelope_keys(), vec![EnvelopeKey::Errors]);
}

#[test]
fn envelope_keys_follow_outcome() {
    let ok: GraphQLResponse<i64> = GraphQLResponse::from_result(Ok((Value::scalar(1), vec![])));
    assert_eq!(ok.envelope_keys(), vec![EnvelopeKey::Data]);
    let partial: GraphQLResponse<i64> = GraphQLResponse::error(FieldError { message: "m".to_string(), extensions: Value::Null });
    assert!(partial.is_ok());
    assert_eq!(partial.envelope_keys(), vec![EnvelopeKey::Data, EnvelopeKey::Errors]);
    match &partial.0 {
        Ok((Value::Null, errs)) => {
            assert_eq!(errs.len(), 1);
            assert_eq!(errs[0].error.message, "m");
            assert_eq!(errs[0].location, SourcePosition::origin());
        }
        _ => panic!("expected null data with an error"),
    }
    let failed: GraphQLResponse<i64> = GraphQLResponse::from_result(Err(GraphQLError::UnknownOperationName));
    assert!(!failed.is_ok());
    assert_eq!(failed.envelope_keys(), vec![EnvelopeKey::Errors]);
}

#[test]
fn subscription_field_emits_one_envelope_per_event() {
    let mut o: Object<Vec<i64>> = Object::with_capacity(1);
    o.add_field("counter".to_string(), Value::scalar(vec![10, 20, 30]));
    let resolved = StreamGraphQLResponse(Ok(Value::Object(o)));
    assert!(resolved.errors().is_none());
    let source = event_source(resolved.into_inner().ok().unwrap());
    let (name, events) = match source {
        EventSource::Field(name, events) => (name, events),
        _ => panic!("expected one top-level field"),
    };
    let responses: Vec<GraphQLResponse<i64>> = events
        .into_iter()
        .map(|e| GraphQLResponse::from_event(name.clone(), Value::scalar(e)))
        .collect();
    assert_eq!(responses.len(), 3);
    for (r, expected) in responses.iter().zip([10, 20, 30]) {
        assert_eq!(r.envelope_keys(), vec![EnvelopeKey::Data]);
        match &r.0 {
            Ok((Value::Object(o), errs)) => {
                assert!(errs.is_empty());
                assert_eq!(o.field_count(), 1);
                assert!(matches!(o.get_field_value(&"counter".to_string()), Some(Value::Scalar(v)) if *v == expected));
            }
            _ => panic!("expected an object"),
        }
    }
}

#[test]
fn event_source_cases() {
    assert!(matches!(event_source::<i64>(Value::Null), EventSource::Nothing));
    assert!(matches!(event_source(Value::scalar(4i64)), EventSource::Whole(4)));
    assert!(matches!(event_source::<i64>(Value::List(vec![])), EventSource::Unsupported));
    let mut two: Object<i64> = Object::with_capacity(2);
    two.add_field("a".to_string(), Value::scalar(1));
    two.add_field("b".to_string(), Value::scalar(2));
    assert!(matches!(event_source(Value::Object(two)), EventSource::Unsupported));
}

#[test]
fn subscription_responses_expose_errors() {
    let failed: IteratorGraphQLResponse<i64> = IteratorGraphQLResponse(Err(GraphQLError::IsSubscription));
    assert!(matches!(failed.errors(), Some(GraphQLError::IsSubscription)));
    assert!(failed.into_inner().is_err());
    let fine: IteratorGraphQLResponse<i64> = IteratorGraphQLResponse(Ok(Value::scalar(1)));
    assert!(fine.errors().is_none());
    let stream_failed: StreamGraphQLResponse<i64> = StreamGraphQLResponse(Err(GraphQLError::MultipleOperationsProvided));
    assert!(stream_failed.errors().is_some());
}

struct CountingHandler;

impl GraphQLOverWsTrait for CountingHandler {
    fn on_connect(&self) -> bool {
        true
    }
}

fn message(kind: ClientConnectionType) -> ClientPayload<DefaultScalarValue> {
    ClientPayload { id: Some("1".to_string()), message_type: kind, payload: None }
}

#[test]
fn session_connects_on_init_only() {
    let mut session = GraphQLOverWs::new(CountingHandler);
    assert_eq!(session.phase(), GraphQLOverWsPhase::SessionInit);
    session.handle_request(message(ClientConnectionType::Start));
    assert_eq!(session.phase(), GraphQLOverWsPhase::SessionInit);
    session.handle_request(message(ClientConnectionType::ConnectionInit));
    assert_eq!(session.phase(), GraphQLOverWsPhase::Connected);
    session.handle_request(message(ClientConnectionType::Stop));
    assert_eq!(session.phase(), GraphQLOverWsPhase::Connected);
}

#[test]
fn connection_type_names() {
    assert_eq!(ClientConnectionType::ConnectionInit.to_string(), "connection_init");
    assert_eq!(ClientConnectionType::ConnectionTerminate.as_str(), "connection_terminate");
    assert_eq!(ClientConnectionType::Start.as_str(), "start");
    assert_eq!(ClientConnectionType::Stop.as_str(), "stop");
    assert_eq!(ServerConnectionType::ConnectionKeepAlive.to_string(), "connection_keep_alive");
    assert_eq!(ServerConnectionType::ConnectionAck.as_str(), "connection_ack");
    assert_eq!(ServerConnectionType::ConnectionError.as_str(), "connection_error");
    assert_eq!(ServerConnectionType::Data.as_str(), "data");
    assert_eq!(ServerConnectionType::Error.as_str(), "error");
    assert_eq!(ServerConnectionType::Complete.as_str(), "complete");
}

#[test]
fn arguments_take_variable_values() {
    let mut vars = no_vars();
    vars.entries.push(("id".to_string(), InputValue::Scalar(DefaultScalarValue::String("1000".to_string()))));
    let args = vec![
        ("id".to_string(), InputValue::Variable("id".to_string())),
        ("missing".to_string(), InputValue::Variable("nope".to_string())),
        (
            "nested".to_string(),
            InputValue::List(vec![InputValue::Variable("id".to_string()), InputValue::Scalar(DefaultScalarValue::Int(3))]),
        ),
    ];
    let out = arguments_with_variables(&args, &vars);
    assert_eq!(out.len(), 3);
    assert_eq!(out[0].0, "id");
    assert!(matches!(&out[0].1, InputValue::Scalar(DefaultScalarValue::String(s)) if s == "1000"));
    assert!(matches!(&out[1].1, InputValue::Null));
    match &out[2].1 {
        InputValue::List(xs) => {
            assert!(matches!(&xs[0], InputValue::Scalar(DefaultScalarValue::String(s)) if s == "1000"));
            assert!(matches!(&xs[1], InputValue::Scalar(DefaultScalarValue::Int(3))));
        }
        _ => panic!("expected a list"),
    }
}

#[test]
fn registry_finds_types_by_name() {
    let types = vec![meta(), MetaType { name: "Droid".to_string(), fields: vec![] }];
    assert_eq!(meta_type_by_name(&types, "Droid"), Some(1));
    assert_eq!(meta_type_by_name(&types, "Hero"), Some(0));
    assert_eq!(meta_type_by_name(&types, "Human"), None);
}

fn op(name: Option<&str>) -> Operation<DefaultScalarValue> {
    Operation { name: name.map(|n| n.to_string()), operation_type: OperationType::Query, selection_set: vec![] }
}

#[test]
fn operation_selection() {
    let none: Document<DefaultScalarValue> = Document { operations: vec![], fragments: vec![] };
    assert!(matches!(select_operation(&none, None), Err(GraphQLError::NoOperationProvided)));
    let one = Document { operations: vec![op(None)], fragments: vec![] };
    assert!(matches!(select_operation(&one, None), Ok(0)));
    let two = Document { operations: vec![op(Some("A")), op(Some("B"))], fragments: vec![] };
    assert!(matches!(select_operation(&two, None), Err(GraphQLError::MultipleOperationsProvided)));
    assert!(matches!(select_operation(&two, Some("B")), Ok(1)));
    assert!(matches!(select_operation(&two, Some("C")), Err(GraphQLError::UnknownOperationName)));
}

#[test]
fn event_items_become_responses() {
    let r: GraphQLResponse<i64> = response_for_event(Some("tick".to_string()), Ok(Value::scalar(5)));
    match &r.0 {
        Ok((Value::Object(o), errs)) => {
            assert!(errs.is_empty());
            assert!(matches!(o.get_field_value(&"tick".to_string()), Some(Value::Scalar(5))));
        }
        _ => panic!("expected an object"),
    }
    let r: GraphQLResponse<i64> = response_for_event(None, Ok(Value::scalar(6)));
    assert!(matches!(&r.0, Ok((Value::Scalar(6), errs)) if errs.is_empty()));
    let r: GraphQLResponse<i64> = response_for_event(
        Some("tick".to_string()),
        Err(FieldError { message: "stream broke".to_string(), extensions: Value::Null }),
    );
    assert_eq!(r.envelope_keys(), vec![EnvelopeKey::Data, EnvelopeKey::Errors]);
    assert!(matches!(&r.0, Ok((Value::Null, errs)) if errs.len() == 1 && errs[0].error.message == "stream broke"));
}

#[test]
fn subscription_is_refused_where_a_query_is_expected() {
    let mut sub = op(Some("S"));
    sub.operation_type = OperationType::Subscription;
    let doc = Document { operations: vec![op(Some("Q")), sub], fragments: vec![] };
    assert!(matches!(operation_for(&doc, Some("S"), OperationType::Query), Err(GraphQLError::IsSubscription)));
    assert!(matches!(operation_for(&doc, Some("S"), OperationType::Subscription), Ok(1)));
    assert!(matches!(operation_for(&doc, Some("Q"), OperationType::Query), Ok(0)));
    assert!(matches!(operation_for(&doc, None, OperationType::Query), Err(GraphQLError::MultipleOperationsProvided)));
}

#[test]
fn failed_event_error_is_at_origin() {
    let r: GraphQLResponse<i64> = response_for_event(
        Some("tick".to_string()),
        Err(FieldError { message: "broken".to_string(), extensions: Value::Null }),
    );
    match &r.0 {
        Ok((Value::Null, errs)) => {
            assert_eq!(errs[0].location, SourcePosition { line: 0, column: 0 });
            assert!(errs[0].path.is_empty());
        }
        _ => panic!("expected null data with an error"),
    }
}
