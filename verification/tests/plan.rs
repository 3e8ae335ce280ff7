use stagecraft::message::{
    key_value_call_message, Attr, CallArgs, Dispatch, Fields, Form, Reply, Variant,
};
use stagecraft::{plan_message, PlanError};

fn variant(name: &str, attrs: Vec<Attr>, fields: Fields) -> Variant {
    Variant { name: name.to_string(), attrs, fields }
}

#[test]
fn counter_messages_get_cast_and_call_helpers() {
    let variants = vec![
        variant("Increment", vec![], Fields::Unit),
        variant("Get", vec![Attr::Call(CallArgs::ReplyType)], Fields::Unit),
        variant("Stop", vec![], Fields::Unit),
    ];
    let plan = plan_message("Counter", &variants).unwrap();
    assert_eq!(plan.helper_trait, "CounterExt");
    assert_eq!(plan.methods.len(), 3);

    assert_eq!(plan.methods[0].method, "increment");
    assert!(plan.methods[0].params.is_empty());
    assert_eq!(plan.methods[0].dispatch, Dispatch::Cast);
    assert_eq!(plan.methods[0].form, Form::Bare);
    assert_eq!(plan.methods[0].call_attr, None);

    assert_eq!(plan.methods[1].method, "get");
    assert_eq!(plan.methods[1].dispatch, Dispatch::Call(Reply::Declared));
    assert_eq!(plan.methods[1].form, Form::Braced);
    assert_eq!(plan.methods[1].call_attr, Some(0));

    assert_eq!(plan.methods[2].method, "stop");
    assert_eq!(plan.methods[2].dispatch, Dispatch::Cast);
}

#[test]
fn printer_message_has_a_named_parameter() {
    let variants = vec![variant("Print", vec![], Fields::Named(vec!["line".to_string()]))];
    let plan = plan_message("Printer", &variants).unwrap();
    assert_eq!(plan.helper_trait, "PrinterExt");
    assert_eq!(plan.methods[0].method, "print");
    assert_eq!(plan.methods[0].params, vec!["line".to_string()]);
    assert_eq!(plan.methods[0].form, Form::Braced);
    assert_eq!(plan.methods[0].dispatch, Dispatch::Cast);
}

#[test]
fn method_names_are_snake_case() {
    let variants = vec![
        variant("GetCount", vec![], Fields::Unit),
        variant("SetHTTPTimeout", vec![], Fields::Unit),
    ];
    let plan = plan_message("A", &variants).unwrap();
    assert_eq!(plan.methods[0].method, "get_count");
    assert_eq!(plan.methods[1].method, "set_http_timeout");
}

#[test]
fn tuple_fields_are_named_by_position() {
    let variants = vec![variant("Move", vec![], Fields::Unnamed(12))];
    let plan = plan_message("A", &variants).unwrap();
    let expected: Vec<String> = (0..12).map(|i| format!("arg{}", i)).collect();
    assert_eq!(plan.methods[0].params, expected);
    assert_eq!(plan.methods[0].params[1], "arg1");
    assert_eq!(plan.methods[0].params[10], "arg10");
    let mut sorted = plan.methods[0].params.clone();
    sorted.sort();
    sorted.dedup();
    assert_eq!(sorted.len(), 12);
    assert_eq!(plan.methods[0].form, Form::Tuple);
}

#[test]
fn tuple_call_stays_a_tuple() {
    let variants = vec![variant("Add", vec![Attr::Call(CallArgs::ReplyType)], Fields::Unnamed(2))];
    let plan = plan_message("A", &variants).unwrap();
    assert_eq!(plan.methods[0].params, vec!["arg0".to_string(), "arg1".to_string()]);
    assert_eq!(plan.methods[0].form, Form::Tuple);
    assert_eq!(plan.methods[0].dispatch, Dispatch::Call(Reply::Declared));
}

#[test]
fn bare_and_empty_call_reply_with_unit() {
    let variants = vec![
        variant("Ping", vec![Attr::Call(CallArgs::Bare)], Fields::Unit),
        variant("Flush", vec![Attr::Other, Attr::Call(CallArgs::EmptyList)], Fields::Unit),
    ];
    let plan = plan_message("A", &variants).unwrap();
    assert_eq!(plan.methods[0].dispatch, Dispatch::Call(Reply::Unit));
    assert_eq!(plan.methods[0].call_attr, Some(0));
    assert_eq!(plan.methods[1].dispatch, Dispatch::Call(Reply::Unit));
    assert_eq!(plan.methods[1].call_attr, Some(1));
}

#[test]
fn only_the_first_call_attribute_counts() {
    let variants = vec![variant(
        "Get",
        vec![Attr::Call(CallArgs::ReplyType), Attr::Call(CallArgs::KeyValue)],
        Fields::Unit,
    )];
    let plan = plan_message("A", &variants).unwrap();
    assert_eq!(plan.methods[0].call_attr, Some(0));
    assert_eq!(plan.methods[0].dispatch, Dispatch::Call(Reply::Declared));
}

#[test]
fn empty_braced_cast_is_written_bare() {
    let variants = vec![
        variant("Reset", vec![], Fields::Named(vec![])),
        variant("Nothing", vec![], Fields::Unnamed(0)),
    ];
    let plan = plan_message("A", &variants).unwrap();
    assert_eq!(plan.methods[0].form, Form::Bare);
    assert_eq!(plan.methods[1].form, Form::Tuple);
}

#[test]
fn key_value_call_is_refused() {
    let variants = vec![
        variant("Ok1", vec![], Fields::Unit),
        variant("Bad", vec![Attr::Other, Attr::Call(CallArgs::KeyValue)], Fields::Unit),
        variant("Bad2", vec![Attr::Call(CallArgs::Unparsable)], Fields::Unit),
    ];
    assert_eq!(
        plan_message("A", &variants),
        Err(PlanError::KeyValueCall { variant: 1, attr: 1 })
    );
    assert_eq!(
        key_value_call_message(),
        "#[call] does not support key=value syntax; use #[call] or #[call(ReturnType)]"
    );
}

#[test]
fn unparsable_reply_type_is_refused() {
    let variants = vec![variant("Bad", vec![Attr::Call(CallArgs::Unparsable)], Fields::Unit)];
    assert_eq!(
        plan_message("A", &variants),
        Err(PlanError::BadReplyType { variant: 0, attr: 0 })
    );
}

#[test]
fn empty_enum_gets_an_empty_trait() {
    let plan = plan_message("Quiet", &vec![]).unwrap();
    assert_eq!(plan.helper_trait, "QuietExt");
    assert!(plan.methods.is_empty());
}
