use ic_replica_core::thrift_ingress::{
    FieldHeader, FieldType, FieldValue, Ingress, IngressReader, ReadStep,
};

fn read_back(plan: Vec<ic_replica_core::thrift_ingress::FieldWrite>) -> Ingress {
    let mut reader = IngressReader::new();
    for w in plan {
        let header = FieldHeader { field_type: w.field_type, id: Some(w.id) };
        match IngressReader::step(&header).unwrap() {
            ReadStep::Finish => break,
            ReadStep::ReadI64(id) => reader.accept(id, w.value),
            ReadStep::ReadString => reader.accept(3, w.value),
            ReadStep::ReadBytes => reader.accept(4, w.value),
            ReadStep::Skip(_) => {}
        }
    }
    reader.finish()
}

#[test]
fn new_sets_every_field() {
    let i = Ingress::new(Some(1), 2, "m".to_owned(), vec![7u8, 8], Some(5), None);
    assert_eq!(i.source, Some(1));
    assert_eq!(i.receiver, Some(2));
    assert_eq!(i.method_name, Some("m".to_owned()));
    assert_eq!(i.method_payload, Some(vec![7, 8]));
    assert_eq!(i.message_id, Some(5));
    assert_eq!(i.message_time_ns, None);
}

#[test]
fn default_is_all_zero_and_empty() {
    let d = Ingress::default();
    assert_eq!(d, Ingress::new(0, 0, "".to_owned(), Vec::new(), 0, 0));
}

#[test]
fn write_plan_lists_present_fields_in_order() {
    let i = Ingress::new(10, None, "hello".to_owned(), None, 11, 12);
    let plan = i.write_plan();
    let ids: Vec<i16> = plan.iter().map(|w| w.id).collect();
    assert_eq!(ids, vec![1, 3, 5, 6]);
    assert_eq!(plan[0].name, "source");
    assert_eq!(plan[1].name, "method_name");
    assert_eq!(plan[1].field_type, FieldType::String);
    assert_eq!(plan[1].value, FieldValue::Text("hello".to_owned()));
    assert_eq!(plan[3].name, "message_time_ns");
    assert_eq!(plan[3].field_type, FieldType::I64);
    assert_eq!(Ingress::struct_name(), "Ingress");
}

#[test]
fn payload_is_written_as_a_thrift_string() {
    let i = Ingress::new(None, None, None, vec![1u8, 2, 3], None, None);
    let plan = i.write_plan();
    assert_eq!(plan.len(), 1);
    assert_eq!(plan[0].id, 4);
    assert_eq!(plan[0].name, "method_payload");
    assert_eq!(plan[0].field_type, FieldType::String);
    assert_eq!(plan[0].value, FieldValue::Bytes(vec![1, 2, 3]));
}

#[test]
fn read_after_write_of_a_full_message_is_identity() {
    let i = Ingress::new(-4, 9, "call".to_owned(), vec![0u8, 255], 77, 1_000_000);
    assert_eq!(read_back(i.write_plan()), i);
}

#[test]
fn read_after_write_fills_absent_fields_with_defaults() {
    let i = Ingress::new(None, 3, None, None, None, None);
    let back = read_back(i.write_plan());
    assert_eq!(back, Ingress::new(0, 3, "".to_owned(), Vec::new(), 0, 0));
}

#[test]
fn step_follows_the_schema() {
    let h = |t, id| FieldHeader { field_type: t, id };
    assert_eq!(IngressReader::step(&h(FieldType::Stop, None)), Ok(ReadStep::Finish));
    assert_eq!(IngressReader::step(&h(FieldType::Stop, Some(3))), Ok(ReadStep::Finish));
    assert_eq!(IngressReader::step(&h(FieldType::I64, Some(1))), Ok(ReadStep::ReadI64(1)));
    assert_eq!(IngressReader::step(&h(FieldType::I64, Some(6))), Ok(ReadStep::ReadI64(6)));
    assert_eq!(IngressReader::step(&h(FieldType::String, Some(3))), Ok(ReadStep::ReadString));
    assert_eq!(IngressReader::step(&h(FieldType::String, Some(4))), Ok(ReadStep::ReadBytes));
    assert_eq!(IngressReader::step(&h(FieldType::List, Some(9))), Ok(ReadStep::Skip(FieldType::List)));
    assert_eq!(
        IngressReader::step(&h(FieldType::I32, None)),
        Err(ic_replica_core::thrift_ingress::DecodeError::MissingFieldId)
    );
}

#[test]
fn accept_ignores_values_of_the_wrong_kind() {
    let mut r = IngressReader::new();
    r.accept(1, FieldValue::Text("x".to_owned()));
    r.accept(3, FieldValue::I64(5));
    r.accept(42, FieldValue::I64(5));
    assert_eq!(r.finish(), Ingress::default());
}
