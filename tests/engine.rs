use juniper_exec::resolve::{
    complete_selection_set, ExecutionError, FieldError, PathSegment, SelectionSetBuilder,
    SourcePosition, TaskOutcome,
};
use juniper_exec::http::{EnvelopeKey, GraphQLResponse};
use juniper_exec::value::{merge_key_into, Object, Value};

fn render(v: &Value<i64>) -> String {
    match v {
        Value::Null => "null".to_string(),
        Value::Scalar(s) => s.to_string(),
        Value::List(items) => {
            let parts: Vec<String> = items.iter().map(render).collect();
            format!("[{}]", parts.join(","))
        }
        Value::Object(o) => {
            let parts: Vec<String> = o
                .key_value_list
                .iter()
                .map(|(k, v)| format!("\"{}\":{}", k, render(v)))
                .collect();
            format!("{{{}}}", parts.join(","))
        }
    }
}

fn obj(fields: Vec<(&str, Value<i64>)>) -> Value<i64> {
    let mut o = Object::with_capacity(fields.len());
    for (k, v) in fields {
        o.add_field(k.to_string(), v);
    }
    Value::Object(o)
}

fn pos(line: usize, column: usize) -> SourcePosition {
    SourcePosition { line, column }
}

fn field(
    name: &str,
    non_null: bool,
    result: Result<Value<i64>, FieldError<i64>>,
) -> TaskOutcome<i64, i64> {
    TaskOutcome::Field {
        name: name.to_string(),
        non_null,
        result,
        location: pos(1, 3),
        path: vec![PathSegment::Field(name.to_string())],
    }
}

fn failure(message: &str) -> FieldError<i64> {
    FieldError { message: message.to_string(), extensions: Value::Null }
}

fn run(outcomes: Vec<TaskOutcome<i64, i64>>) -> (Value<i64>, Vec<ExecutionError<i64>>) {
    let mut errors = Vec::new();
    let v = complete_selection_set(outcomes, &mut errors);
    (v, errors)
}

#[test]
fn id_and_nullable_name_resolve_to_object() {
    let (v, errors) = run(vec![
        field("id", true, Ok(Value::scalar(1))),
        field("name", false, Ok(Value::null())),
    ]);
    assert_eq!(render(&v), "{\"id\":1,\"name\":null}");
    assert!(errors.is_empty());
    let response = GraphQLResponse::from_result(Ok((v, errors)));
    assert!(response.is_ok());
    assert_eq!(response.envelope_keys(), vec![EnvelopeKey::Data]);
}

#[test]
fn failing_non_null_name_nulls_data_and_records_path() {
    let (v, errors) = run(vec![
        field("id", true, Ok(Value::scalar(1))),
        field("name", true, Err(failure("name is missing"))),
    ]);
    assert_eq!(render(&v), "null");
    assert_eq!(errors.len(), 1);
    assert_eq!(errors[0].error.message, "name is missing");
    assert_eq!(errors[0].path.len(), 1);
    assert!(matches!(&errors[0].path[0], PathSegment::Field(n) if n == "name"));
    assert_eq!(errors[0].location, pos(1, 3));
    let response = GraphQLResponse::from_result(Ok((v, errors)));
    assert_eq!(response.envelope_keys(), vec![EnvelopeKey::Data, EnvelopeKey::Errors]);
}

#[test]
fn non_null_field_resolving_to_null_nulls_object_without_new_error() {
    let (v, errors) = run(vec![
        field("id", true, Ok(Value::scalar(1))),
        field("name", true, Ok(Value::null())),
    ]);
    assert_eq!(render(&v), "null");
    assert!(errors.is_empty());
}

#[test]
fn nullable_field_error_contributes_null_and_keeps_siblings() {
    let (v, errors) = run(vec![
        field("a", false, Err(failure("boom"))),
        field("b", true, Ok(Value::scalar(2))),
    ]);
    assert_eq!(render(&v), "{\"a\":null,\"b\":2}");
    assert_eq!(errors.len(), 1);
}

#[test]
fn all_field_errors_are_recorded_also_after_the_null() {
    let (v, errors) = run(vec![
        field("a", false, Err(failure("first"))),
        field("b", true, Err(failure("second"))),
        field("c", false, Err(failure("after the null"))),
        TaskOutcome::Narrowed { result: Err(failure("narrowing")), location: pos(5, 1), path: vec![] },
    ]);
    assert_eq!(render(&v), "null");
    assert_eq!(errors.len(), 4);
    assert_eq!(errors[0].error.message, "first");
    assert_eq!(errors[1].error.message, "second");
    assert_eq!(errors[2].error.message, "after the null");
    assert_eq!(errors[3].error.message, "narrowing");
}

#[test]
fn typename_outcome_is_a_non_null_field() {
    let o: TaskOutcome<i64, i64> = TaskOutcome::typename("kind".to_string(), Value::scalar(3), pos(1, 1), vec![]);
    assert!(matches!(&o, TaskOutcome::Field { name, non_null: true, result: Ok(Value::Scalar(3)), .. } if name == "kind"));
    let (v, _) = run(vec![o]);
    assert_eq!(render(&v), "{\"kind\":3}");
}

#[test]
fn fragments_contributing_to_same_field_are_merged() {
    let (v, errors) = run(vec![
        TaskOutcome::Nested(obj(vec![("x", obj(vec![("a", Value::scalar(1))]))])),
        TaskOutcome::Nested(obj(vec![("x", obj(vec![("b", Value::scalar(2))]))])),
    ]);
    assert_eq!(render(&v), "{\"x\":{\"a\":1,\"b\":2}}");
    assert!(errors.is_empty());
}

#[test]
fn later_field_with_same_alias_wins() {
    let (v, _) = run(vec![
        field("A", false, Ok(Value::scalar(1))),
        field("other", false, Ok(Value::scalar(5))),
        field("A", false, Ok(Value::scalar(2))),
    ]);
    assert_eq!(render(&v), "{\"A\":2,\"other\":5}");
}

#[test]
fn same_alias_objects_are_merged() {
    let (v, _) = run(vec![
        field("A", false, Ok(obj(vec![("p", Value::scalar(1)), ("q", Value::scalar(2))]))),
        field("A", false, Ok(obj(vec![("q", Value::scalar(3)), ("r", Value::scalar(4))]))),
    ]);
    assert_eq!(render(&v), "{\"A\":{\"p\":1,\"q\":3,\"r\":4}}");
}

#[test]
fn response_order_follows_scheduling_order() {
    let (v, _) = run(vec![
        field("zeta", true, Ok(Value::scalar(1))),
        field("alpha", true, Ok(Value::scalar(2))),
        field("mid", true, Ok(Value::scalar(3))),
    ]);
    assert_eq!(render(&v), "{\"zeta\":1,\"alpha\":2,\"mid\":3}");
}

#[test]
fn non_null_leaf_value_is_kept_exactly() {
    let (v, _) = run(vec![
        field("big", true, Ok(Value::scalar(i64::MAX))),
        field("small", true, Ok(Value::scalar(i64::MIN))),
    ]);
    match v {
        Value::Object(o) => {
            match o.get_field_value(&"big".to_string()) {
                Some(Value::Scalar(s)) => assert_eq!(*s, i64::MAX),
                _ => panic!("missing field"),
            }
            match o.get_field_value(&"small".to_string()) {
                Some(Value::Scalar(s)) => assert_eq!(*s, i64::MIN),
                _ => panic!("missing field"),
            }
        }
        _ => panic!("expected an object"),
    }
}

#[test]
fn null_stops_at_nullable_parent() {
    let (child, child_errors) = run(vec![
        field("id", true, Ok(Value::scalar(7))),
        field("name", true, Err(failure("gone"))),
    ]);
    assert_eq!(render(&child), "null");
    assert_eq!(child_errors.len(), 1);
    let (parent, _) = run(vec![
        field("hero", false, Ok(child)),
        field("count", true, Ok(Value::scalar(3))),
    ]);
    assert_eq!(render(&parent), "{\"hero\":null,\"count\":3}");
}

#[test]
fn null_passes_through_non_null_parent() {
    let (child, _) = run(vec![field("name", true, Ok(Value::null()))]);
    let (parent, _) = run(vec![
        field("count", true, Ok(Value::scalar(3))),
        field("hero", true, Ok(child)),
    ]);
    assert_eq!(render(&parent), "null");
}

#[test]
fn nested_null_nulls_object() {
    let (v, _) = run(vec![
        field("a", true, Ok(Value::scalar(1))),
        TaskOutcome::Nested(Value::null()),
    ]);
    assert_eq!(render(&v), "null");
}

#[test]
fn narrowed_failure_records_error_and_continues() {
    let (v, errors) = run(vec![
        TaskOutcome::Narrowed {
            result: Err(failure("no such type")),
            location: pos(2, 1),
            path: vec![],
        },
        TaskOutcome::Narrowed { result: Ok(obj(vec![("k", Value::scalar(9))])), location: pos(3, 1), path: vec![] },
        TaskOutcome::Narrowed { result: Ok(Value::null()), location: pos(4, 1), path: vec![] },
    ]);
    assert_eq!(render(&v), "{\"k\":9}");
    assert_eq!(errors.len(), 1);
    assert_eq!(errors[0].location, pos(2, 1));
}

#[test]
fn resolving_twice_gives_identical_trees() {
    let make = || {
        vec![
            field("a", true, Ok(Value::scalar(1))),
            TaskOutcome::Nested(obj(vec![("b", obj(vec![("c", Value::scalar(2))]))])),
            field("d", false, Err(failure("x"))),
        ]
    };
    let (v1, e1) = run(make());
    let (v2, e2) = run(make());
    assert_eq!(render(&v1), render(&v2));
    assert_eq!(e1.len(), e2.len());
    assert_eq!(render(&v1), "{\"a\":1,\"b\":{\"c\":2},\"d\":null}");
}

#[test]
fn empty_selection_set_is_empty_object() {
    let (v, errors) = run(vec![]);
    assert_eq!(render(&v), "{}");
    assert!(errors.is_empty());
}

#[test]
fn builder_stops_accepting_after_null() {
    let mut b: SelectionSetBuilder<i64> = SelectionSetBuilder::new(2);
    let mut errors = Vec::new();
    assert!(b.accept(field("a", true, Ok(Value::scalar(1))), &mut errors));
    assert!(!b.accept(field("b", true, Ok(Value::null())), &mut errors));
    assert!(b.is_nulled());
    assert!(!b.accept(field("c", false, Err(failure("late"))), &mut errors));
    assert_eq!(errors.len(), 1);
    assert_eq!(errors[0].error.message, "late");
    assert_eq!(render(&b.finish()), "null");
}

#[test]
fn merge_key_into_overwrites_scalars_and_merges_objects() {
    let mut o: Object<i64> = Object::with_capacity(0);
    merge_key_into(&mut o, "s".to_string(), Value::scalar(1));
    merge_key_into(&mut o, "s".to_string(), Value::scalar(2));
    merge_key_into(&mut o, "o".to_string(), obj(vec![("x", obj(vec![("y", Value::scalar(1))]))]));
    merge_key_into(&mut o, "o".to_string(), obj(vec![("x", obj(vec![("z", Value::scalar(2))]))]));
    merge_key_into(&mut o, "l".to_string(), Value::List(vec![Value::scalar(1)]));
    merge_key_into(&mut o, "l".to_string(), obj(vec![("w", Value::scalar(3))]));
    assert_eq!(render(&Value::Object(o)), "{\"s\":2,\"o\":{\"x\":{\"y\":1,\"z\":2}},\"l\":{\"w\":3}}");
}

#[test]
fn add_field_replaces_in_place() {
    let mut o: Object<i64> = Object::with_capacity(0);
    o.add_field("a".to_string(), Value::scalar(1));
    o.add_field("b".to_string(), Value::scalar(2));
    o.add_field("a".to_string(), obj(vec![("n", Value::scalar(3))]));
    o.add_field("a".to_string(), obj(vec![("m", Value::scalar(4))]));
    assert_eq!(o.field_count(), 2);
    assert_eq!(o.find_key(&"b".to_string()), Some(1));
    assert_eq!(o.find_key(&"c".to_string()), None);
    assert_eq!(render(&Value::Object(o)), "{\"a\":{\"m\":4},\"b\":2}");
}

#[test]
fn value_predicates() {
    let n: Value<i64> = Value::null();
    assert!(n.is_null());
    assert!(!n.is_object());
    assert!(obj(vec![]).is_object());
    assert!(!Value::scalar(3i64).is_null());
}

#[test]
fn execution_error_at_origin() {
    let e = ExecutionError::at_origin(failure("oops"));
    assert_eq!(e.location, SourcePosition::origin());
    assert_eq!(e.location, pos(0, 0));
    assert!(e.path.is_empty());
    assert_eq!(e.error.message, "oops");
}
