use capnp2arrow::array::{make_mutable_array, MutableArray};
use capnp2arrow::deserialize::{deserialize, DeserializeError};
use capnp2arrow::field::{zip_fields, ZipError};
use capnp2arrow::schema::{
    make_arrow_fields, schema_to_fields, update_recusion_depth, ArrowDataType, ArrowField,
    MapError, RecursionDepths,
};
use capnp2arrow::source::{EnumDef, SourceField, SourceSchema, SourceType, StructDef};
use capnp2arrow::value::Value;

fn field(name: &str, dtype: SourceType) -> SourceField {
    SourceField {
        name: name.to_string(),
        dtype,
    }
}

fn schema_of(structs: Vec<Vec<SourceField>>, enums: Vec<Vec<&str>>) -> SourceSchema {
    SourceSchema {
        structs: structs
            .into_iter()
            .map(|fields| StructDef { fields })
            .collect(),
        enums: enums
            .into_iter()
            .map(|names| EnumDef {
                enumerants: names.into_iter().map(|n| n.to_string()).collect(),
            })
            .collect(),
    }
}

fn point_schema() -> SourceSchema {
    schema_of(
        vec![vec![
            field("x", SourceType::Float32),
            field("y", SourceType::Float32),
        ]],
        vec![],
    )
}

#[test]
fn test_map_schema() {
    let schema = point_schema();
    let (fields, diags) = schema_to_fields(&schema, 0).unwrap();
    assert!(diags.is_empty());
    let arrow_fields = make_arrow_fields(fields);

    let field_x = ArrowField {
        name: "x".to_string(),
        data_type: ArrowDataType::Float32,
        nullable: true,
    };
    let field_y = ArrowField {
        name: "y".to_string(),
        data_type: ArrowDataType::Float32,
        nullable: true,
    };
    assert_eq!(arrow_fields, vec![field_x, field_y]);
}

#[test]
fn test_decode_point() {
    let schema = point_schema();
    let (fields, _) = schema_to_fields(&schema, 0).unwrap();
    let message = Value::Struct(vec![
        Some(Value::Float32 {
            bits: 5.0f32.to_bits(),
        }),
        Some(Value::Float32 {
            bits: 10.0f32.to_bits(),
        }),
    ]);
    let chunk = deserialize(&vec![message], &fields).unwrap();
    assert_eq!(chunk.arrays.len(), 2);
    match &chunk.arrays[0] {
        MutableArray::Float32 { values } => {
            assert_eq!(values, &vec![Some(5.0f32.to_bits())]);
        }
        _ => panic!("expected a float32 column for x"),
    }
    match &chunk.arrays[1] {
        MutableArray::Float32 { values } => {
            assert_eq!(values, &vec![Some(10.0f32.to_bits())]);
        }
        _ => panic!("expected a float32 column for y"),
    }
}

#[test]
fn test_variant_group_propagation() {
    // root { a: struct { p: int32 }, b: struct { q: int32 } } where a and b
    // form a variant group: exactly one slot is present per message.
    let schema = schema_of(
        vec![
            vec![
                field("a", SourceType::Struct(1)),
                field("b", SourceType::Struct(2)),
            ],
            vec![field("p", SourceType::Int32)],
            vec![field("q", SourceType::Int32)],
        ],
        vec![],
    );
    let (fields, _) = schema_to_fields(&schema, 0).unwrap();
    let message = Value::Struct(vec![
        None,
        Some(Value::Struct(vec![Some(Value::Int32(7))])),
    ]);
    let chunk = deserialize(&vec![message], &fields).unwrap();
    assert_eq!(chunk.arrays.len(), 2);
    match &chunk.arrays[0] {
        MutableArray::Struct { children, validity } => {
            assert_eq!(validity, &vec![false]);
            match &children[0] {
                MutableArray::Int32 { values } => assert_eq!(values, &vec![None]),
                _ => panic!("expected an int32 column for a.p"),
            }
        }
        _ => panic!("expected a struct column for a"),
    }
    match &chunk.arrays[1] {
        MutableArray::Struct { children, validity } => {
            assert_eq!(validity, &vec![true]);
            match &children[0] {
                MutableArray::Int32 { values } => assert_eq!(values, &vec![Some(7)]),
                _ => panic!("expected an int32 column for b.q"),
            }
        }
        _ => panic!("expected a struct column for b"),
    }
}

fn color_schema() -> SourceSchema {
    schema_of(
        vec![vec![field("color", SourceType::Enum(0))]],
        vec![vec!["RED", "GREEN", "BLUE"]],
    )
}

#[test]
fn test_dictionary_determinism() {
    let schema = color_schema();
    let expected: Vec<String> = vec!["RED".to_string(), "GREEN".to_string(), "BLUE".to_string()];

    // Zero rows.
    let (fields, _) = schema_to_fields(&schema, 0).unwrap();
    let chunk = deserialize(&vec![], &fields).unwrap();
    match &chunk.arrays[0] {
        MutableArray::Dictionary { keys, values } => {
            assert!(keys.is_empty());
            assert_eq!(values, &expected);
        }
        _ => panic!("expected a dictionary column"),
    }

    // Rows that use only one constant, out of declared order.
    let messages = vec![
        Value::Struct(vec![Some(Value::Enum(2))]),
        Value::Struct(vec![Some(Value::Enum(1))]),
    ];
    let chunk = deserialize(&messages, &fields).unwrap();
    match &chunk.arrays[0] {
        MutableArray::Dictionary { keys, values } => {
            assert_eq!(keys, &vec![Some(2), Some(1)]);
            assert_eq!(values, &expected);
        }
        _ => panic!("expected a dictionary column"),
    }
}

#[test]
fn test_unknown_enumerant_becomes_null() {
    let schema = color_schema();
    let (fields, _) = schema_to_fields(&schema, 0).unwrap();
    let messages = vec![Value::Struct(vec![Some(Value::Enum(7))])];
    let chunk = deserialize(&messages, &fields).unwrap();
    match &chunk.arrays[0] {
        MutableArray::Dictionary { keys, values } => {
            assert_eq!(keys, &vec![None]);
            assert_eq!(values.len(), 3);
        }
        _ => panic!("expected a dictionary column"),
    }
}

#[test]
fn test_recursive_schema_terminates_at_bound() {
    // A self-referential struct: S { s: S }. Mapping completes, nesting
    // exactly to the recursion bound of 3 struct levels, the innermost
    // left without children, and one diagnostic recorded for the stopped
    // expansion.
    let schema = schema_of(vec![vec![field("s", SourceType::Struct(0))]], vec![]);
    let (fields, diags) = schema_to_fields(&schema, 0).unwrap();
    assert_eq!(fields.len(), 1);
    assert_eq!(diags.len(), 1);
    assert_eq!(diags[0].field_name, "s");
    assert_eq!(diags[0].error, MapError::RecursionLimitExceeded);

    let mut depth = 0;
    let mut dtype = &fields[0].arrow_field().data_type;
    loop {
        match dtype {
            ArrowDataType::Struct(children) => {
                depth += 1;
                if children.is_empty() {
                    break;
                }
                assert_eq!(children.len(), 1);
                dtype = &children[0].data_type;
            }
            _ => panic!("expected struct nesting"),
        }
    }
    assert_eq!(depth, 3);
}

#[test]
fn test_empty_struct_dropped_with_diagnostic() {
    let schema = schema_of(
        vec![
            vec![
                field("good", SourceType::Int32),
                field("bad", SourceType::Struct(1)),
                field("also", SourceType::Bool),
            ],
            vec![],
        ],
        vec![],
    );
    let (fields, diags) = schema_to_fields(&schema, 0).unwrap();
    assert_eq!(fields.len(), 2);
    assert_eq!(fields[0].arrow_field().name, "good");
    assert_eq!(fields[1].arrow_field().name, "also");
    assert_eq!(diags.len(), 1);
    assert_eq!(diags[0].field_name, "bad");
    assert_eq!(diags[0].error, MapError::EmptyStruct);
}

#[test]
fn test_list_of_struct_shape() {
    // root { pts: list(struct { p: int32, q: int32 }) }, one message whose
    // list has 3 elements: the list column reports length 3 for that row
    // and both child columns hold exactly 3 aligned entries.
    let schema = schema_of(
        vec![
            vec![field("pts", SourceType::List(Box::new(SourceType::Struct(1))))],
            vec![
                field("p", SourceType::Int32),
                field("q", SourceType::Int32),
            ],
        ],
        vec![],
    );
    let (fields, _) = schema_to_fields(&schema, 0).unwrap();
    let elem = |p: i32, q: i32| Value::Struct(vec![Some(Value::Int32(p)), Some(Value::Int32(q))]);
    let message = Value::Struct(vec![Some(Value::List(vec![
        elem(1, 10),
        elem(2, 20),
        elem(3, 30),
    ]))]);
    let chunk = deserialize(&vec![message], &fields).unwrap();
    match &chunk.arrays[0] {
        MutableArray::List {
            child,
            offsets,
            validity,
        } => {
            assert_eq!(offsets, &vec![0, 3]);
            assert_eq!(validity, &vec![true]);
            match &**child {
                MutableArray::Struct { children, validity } => {
                    assert_eq!(validity, &vec![true, true, true]);
                    match &children[0] {
                        MutableArray::Int32 { values } => {
                            assert_eq!(values, &vec![Some(1), Some(2), Some(3)])
                        }
                        _ => panic!("expected int32 p column"),
                    }
                    match &children[1] {
                        MutableArray::Int32 { values } => {
                            assert_eq!(values, &vec![Some(10), Some(20), Some(30)])
                        }
                        _ => panic!("expected int32 q column"),
                    }
                }
                _ => panic!("expected struct items"),
            }
        }
        _ => panic!("expected a list column"),
    }
}

#[test]
fn test_unsupported_type_is_fatal() {
    let schema = schema_of(
        vec![vec![
            field("ok", SourceType::Int32),
            field("bad", SourceType::AnyPointer),
        ]],
        vec![],
    );
    assert_eq!(
        schema_to_fields(&schema, 0).err(),
        Some(MapError::UnsupportedType)
    );
}

#[test]
fn test_type_mismatch_aborts_batch() {
    let schema = schema_of(vec![vec![field("x", SourceType::Int32)]], vec![]);
    let (fields, _) = schema_to_fields(&schema, 0).unwrap();
    let messages = vec![Value::Struct(vec![Some(Value::Bool(true))])];
    assert_eq!(
        deserialize(&messages, &fields).err(),
        Some(DeserializeError::TypeMismatch)
    );
}

#[test]
fn test_zip_rejects_unknown_name() {
    let schema = schema_of(vec![vec![field("x", SourceType::Int32)]], vec![]);
    let stray = ArrowField {
        name: "zz".to_string(),
        data_type: ArrowDataType::Int32,
        nullable: true,
    };
    assert_eq!(zip_fields(&schema, 0, vec![stray]).err(), Some(ZipError::NoSuchField));
}

#[test]
fn test_zip_rejects_kind_drift() {
    let schema = schema_of(vec![vec![field("x", SourceType::Int32)]], vec![]);
    let drifted = ArrowField {
        name: "x".to_string(),
        data_type: ArrowDataType::Dictionary,
        nullable: true,
    };
    assert_eq!(
        zip_fields(&schema, 0, vec![drifted]).err(),
        Some(ZipError::KindMismatch)
    );
}

#[test]
fn test_update_recusion_depth_counts_per_name() {
    let mut depths = RecursionDepths::new();
    let name = "node".to_string();
    let other = "leaf".to_string();
    update_recusion_depth(&name, &mut depths);
    update_recusion_depth(&name, &mut depths);
    update_recusion_depth(&other, &mut depths);
    assert_eq!(depths.get_count(&name), 2);
    assert_eq!(depths.get_count(&other), 1);
    assert_eq!(depths.get_count(&"unseen".to_string()), 0);
}

#[test]
fn test_dictionary_builder_preseeded() {
    let schema = color_schema();
    let (fields, _) = schema_to_fields(&schema, 0).unwrap();
    let array = make_mutable_array(&fields[0], 16);
    match array {
        MutableArray::Dictionary { keys, values } => {
            assert!(keys.is_empty());
            assert_eq!(
                values,
                vec!["RED".to_string(), "GREEN".to_string(), "BLUE".to_string()]
            );
        }
        _ => panic!("expected a dictionary builder"),
    }
}

#[test]
fn test_text_and_binary_round_through() {
    let schema = schema_of(
        vec![vec![
            field("name", SourceType::Text),
            field("blob", SourceType::Data),
            field("flag", SourceType::Bool),
        ]],
        vec![],
    );
    let (fields, _) = schema_to_fields(&schema, 0).unwrap();
    let messages = vec![
        Value::Struct(vec![
            Some(Value::Text("alpha".to_string())),
            Some(Value::Data(vec![1, 2, 3])),
            None,
        ]),
        Value::Struct(vec![None, None, Some(Value::Bool(true))]),
    ];
    let chunk = deserialize(&messages, &fields).unwrap();
    match &chunk.arrays[0] {
        MutableArray::Utf8 { values } => {
            assert_eq!(values, &vec![Some("alpha".to_string()), None]);
        }
        _ => panic!("expected a utf8 column"),
    }
    match &chunk.arrays[1] {
        MutableArray::Binary { values } => {
            assert_eq!(values, &vec![Some(vec![1, 2, 3]), None]);
        }
        _ => panic!("expected a binary column"),
    }
    match &chunk.arrays[2] {
        MutableArray::Boolean { values } => {
            assert_eq!(values, &vec![None, Some(true)]);
        }
        _ => panic!("expected a boolean column"),
    }
}

#[test]
fn test_absent_list_keeps_child_aligned() {
    // A list field whose slot is absent still closes one row in the list
    // column and one null slot in its child builder, keeping every
    // column aligned.
    let schema = schema_of(
        vec![vec![field(
            "xs",
            SourceType::List(Box::new(SourceType::Int32)),
        )]],
        vec![],
    );
    let (fields, _) = schema_to_fields(&schema, 0).unwrap();
    let message = Value::Struct(vec![None]);
    let chunk = deserialize(&vec![message], &fields).unwrap();
    match &chunk.arrays[0] {
        MutableArray::List {
            child,
            offsets,
            validity,
        } => {
            assert_eq!(offsets, &vec![0, 1]);
            assert_eq!(validity, &vec![true]);
            match &**child {
                MutableArray::Int32 { values } => assert_eq!(values, &vec![None]),
                _ => panic!("expected an int32 item column"),
            }
        }
        _ => panic!("expected a list column"),
    }
}

#[test]
fn test_recursion_through_list_of_struct_terminates() {
    // S { xs: list(S) }: expansion through a list-of-struct field counts
    // against the same per-name bound, so mapping completes with a
    // diagnostic for the stopped expansion.
    let schema = schema_of(
        vec![vec![field(
            "xs",
            SourceType::List(Box::new(SourceType::Struct(0))),
        )]],
        vec![],
    );
    let (fields, diags) = schema_to_fields(&schema, 0).unwrap();
    assert_eq!(fields.len(), 1);
    assert_eq!(diags.len(), 1);
    assert_eq!(diags[0].field_name, "xs");
    assert_eq!(diags[0].error, MapError::RecursionLimitExceeded);
}

#[test]
fn test_list_of_list_shape() {
    let schema = schema_of(
        vec![vec![field(
            "grid",
            SourceType::List(Box::new(SourceType::List(Box::new(SourceType::Int32)))),
        )]],
        vec![],
    );
    let (fields, _) = schema_to_fields(&schema, 0).unwrap();
    let message = Value::Struct(vec![Some(Value::List(vec![
        Value::List(vec![Value::Int32(1), Value::Int32(2)]),
        Value::List(vec![Value::Int32(3)]),
    ]))]);
    let chunk = deserialize(&vec![message], &fields).unwrap();
    match &chunk.arrays[0] {
        MutableArray::List {
            child,
            offsets,
            validity,
        } => {
            assert_eq!(offsets, &vec![0, 2]);
            assert_eq!(validity, &vec![true]);
            match &**child {
                MutableArray::List {
                    child: inner,
                    offsets,
                    validity,
                } => {
                    assert_eq!(offsets, &vec![0, 2, 3]);
                    assert_eq!(validity, &vec![true, true]);
                    match &**inner {
                        MutableArray::Int32 { values } => {
                            assert_eq!(values, &vec![Some(1), Some(2), Some(3)])
                        }
                        _ => panic!("expected int32 items"),
                    }
                }
                _ => panic!("expected an inner list column"),
            }
        }
        _ => panic!("expected a list column"),
    }
}

#[test]
fn test_all_primitive_kinds_round_through() {
    let schema = schema_of(
        vec![vec![
            field("v", SourceType::Void),
            field("b", SourceType::Bool),
            field("i8", SourceType::Int8),
            field("i16", SourceType::Int16),
            field("i32", SourceType::Int32),
            field("i64", SourceType::Int64),
            field("u8", SourceType::UInt8),
            field("u16", SourceType::UInt16),
            field("u32", SourceType::UInt32),
            field("u64", SourceType::UInt64),
            field("f64", SourceType::Float64),
        ]],
        vec![],
    );
    let (fields, _) = schema_to_fields(&schema, 0).unwrap();
    let message = Value::Struct(vec![
        Some(Value::Void),
        Some(Value::Bool(true)),
        Some(Value::Int8(-8)),
        Some(Value::Int16(-16)),
        Some(Value::Int32(-32)),
        Some(Value::Int64(-64)),
        Some(Value::UInt8(8)),
        Some(Value::UInt16(16)),
        Some(Value::UInt32(32)),
        Some(Value::UInt64(64)),
        Some(Value::Float64 {
            bits: 2.5f64.to_bits(),
        }),
    ]);
    let chunk = deserialize(&vec![message], &fields).unwrap();
    assert_eq!(chunk.arrays.len(), 11);
    for array in &chunk.arrays {
        assert_eq!(array.len(), 1);
    }
    match &chunk.arrays[5] {
        MutableArray::Int64 { values } => assert_eq!(values, &vec![Some(-64)]),
        _ => panic!("expected an int64 column"),
    }
    match &chunk.arrays[10] {
        MutableArray::Float64 { values } => {
            assert_eq!(values, &vec![Some(2.5f64.to_bits())])
        }
        _ => panic!("expected a float64 column"),
    }
}

#[test]
fn test_zip_rejects_primitive_kind_drift() {
    let schema = schema_of(vec![vec![field("x", SourceType::Int32)]], vec![]);
    let drifted = ArrowField {
        name: "x".to_string(),
        data_type: ArrowDataType::Utf8,
        nullable: true,
    };
    assert_eq!(
        zip_fields(&schema, 0, vec![drifted]).err(),
        Some(ZipError::KindMismatch)
    );
}

#[test]
fn test_update_recusion_depth_exact_past_bound() {
    // The counter keeps exact arithmetic beyond the recursion bound; only
    // reads are clipped by the limiter.
    let mut depths = RecursionDepths::new();
    let name = "s".to_string();
    for _ in 0..5 {
        update_recusion_depth(&name, &mut depths);
    }
    assert_eq!(depths.get_count(&name), 5);
}
