use packet_codec::error::ErrorKind;
use packet_codec::schema::{
    duplicate_deps, duplicate_fields, same_text, well_formed, Dynamic, DynamicRule, FieldAttr,
    FieldDecl, FieldSpec, FieldType, ItemAttr, PacketSchema,
};

fn plain(name: &str, ty: FieldType) -> FieldDecl {
    FieldDecl { name: name.to_string(), ty, attributes: Vec::new() }
}

fn dynamic(name: &str, ty: FieldType, deps: &[&str], rule: DynamicRule) -> FieldDecl {
    let deps = deps.iter().map(|d| d.to_string()).collect();
    FieldDecl { name: name.to_string(), ty, attributes: vec![FieldAttr::Dynamic { deps, rule }] }
}

fn violation(attrs: Vec<ItemAttr>, decls: Vec<FieldDecl>) -> bool {
    match PacketSchema::new("P".to_string(), attrs, decls) {
        Err(kind) => kind == ErrorKind::SchemaViolation,
        Ok(_) => false,
    }
}

#[test]
fn item_attribute_keys_are_recognised() {
    assert_eq!(ItemAttr::parse_args("login_opcode", 12), Ok(ItemAttr::LoginOpcode(12)));
    assert_eq!(ItemAttr::parse_args("world_opcode", 100), Ok(ItemAttr::WorldOpcode(100)));
    assert_eq!(ItemAttr::parse_args("compressed_opcode", 999), Ok(ItemAttr::CompressedOpcode(999)));
    assert_eq!(
        ItemAttr::parse_args("compressed_opcode", 0xffff),
        Ok(ItemAttr::CompressedOpcode(0xffff))
    );
    assert_eq!(
        ItemAttr::parse_args("world_opcode", 0x1_0000),
        Ok(ItemAttr::WorldOpcode(0x1_0000))
    );
}

#[test]
fn unknown_item_attribute_is_a_schema_violation() {
    assert_eq!(ItemAttr::parse_args("opcode", 1), Err(ErrorKind::SchemaViolation));
    assert_eq!(ItemAttr::parse_args("", 1), Err(ErrorKind::SchemaViolation));
    assert_eq!(ItemAttr::parse_args("login_opcod", 1), Err(ErrorKind::SchemaViolation));
    assert_eq!(ItemAttr::parse_args("Login_opcode", 1), Err(ErrorKind::SchemaViolation));
    assert_eq!(ItemAttr::parse_args("dynamic", 1), Err(ErrorKind::SchemaViolation));
}

#[test]
fn compressed_opcode_beyond_16_bits_is_a_schema_violation() {
    assert_eq!(ItemAttr::parse_args("compressed_opcode", 0x1_0000), Err(ErrorKind::SchemaViolation));
    assert_eq!(ItemAttr::parse_args("compressed_opcode", u32::MAX), Err(ErrorKind::SchemaViolation));
}

#[test]
fn field_attribute_keys_are_recognised() {
    let deps = vec!["nickname_size".to_string()];
    match FieldAttr::parse_args("dynamic", deps.clone()) {
        Ok(FieldAttr::Dynamic { deps: d, rule }) => {
            assert_eq!(d, deps);
            assert_eq!(rule, DynamicRule::Presence);
        }
        Err(_) => panic!("dynamic is a known key"),
    }
    match FieldAttr::parse_args("sized", deps.clone()) {
        Ok(FieldAttr::Dynamic { deps: d, rule }) => {
            assert_eq!(d, deps);
            assert_eq!(rule, DynamicRule::Length);
        }
        Err(_) => panic!("sized is a known key"),
    }
}

#[test]
fn unknown_field_attribute_is_a_schema_violation() {
    assert!(matches!(
        FieldAttr::parse_args("static", Vec::new()),
        Err(ErrorKind::SchemaViolation)
    ));
    assert!(matches!(
        FieldAttr::parse_args("login_opcode", vec!["a".to_string()]),
        Err(ErrorKind::SchemaViolation)
    ));
}

#[test]
fn texts_are_compared_byte_by_byte() {
    assert!(same_text("", ""));
    assert!(same_text("dynamic", "dynamic"));
    assert!(!same_text("dynamic", "dynamiC"));
    assert!(!same_text("dynamic", "dynami"));
    assert!(same_text("\u{e9}", "\u{e9}"));
    assert!(!same_text("\u{e9}", "e"));
}

#[test]
fn integer_types_are_told_apart() {
    assert!(FieldType::U8.integer());
    assert!(FieldType::U16.integer());
    assert!(FieldType::U32.integer());
    assert!(FieldType::U64.integer());
    assert!(!FieldType::Text.integer());
    assert!(!FieldType::Bytes(4).integer());
    assert!(!FieldType::Record(Vec::new()).integer());
    assert!(FieldType::Bytes(4).run_of_bytes());
    assert!(!FieldType::Text.run_of_bytes());
    assert!(!FieldType::U8.run_of_bytes());
}

#[test]
fn declaration_is_resolved_into_indices() {
    let schema = PacketSchema::new(
        "Income".to_string(),
        vec![ItemAttr::WorldOpcode(100), ItemAttr::LoginOpcode(12)],
        vec![
            plain("name", FieldType::Text),
            plain("age", FieldType::U64),
            plain("nickname_size", FieldType::U32),
            dynamic("nickname", FieldType::Text, &["nickname_size"], DynamicRule::Presence),
            dynamic("blob", FieldType::Bytes(0), &["age", "nickname_size"], DynamicRule::Length),
        ],
    )
    .unwrap();
    assert_eq!(schema.name, "Income");
    assert_eq!(schema.login_opcode, Some(12));
    assert_eq!(schema.world_opcode, Some(100));
    assert_eq!(schema.compressed_opcode, None);
    assert_eq!(schema.fields.len(), 5);
    assert_eq!(schema.fields[0].name, "name");
    assert_eq!(schema.fields[0].ty, FieldType::Text);
    assert!(schema.fields[0].dynamic.is_none());
    assert_eq!(schema.fields[2].ty, FieldType::U32);
    let nickname = schema.fields[3].dynamic.as_ref().unwrap();
    assert_eq!(nickname.deps, vec![2]);
    assert_eq!(nickname.rule, DynamicRule::Presence);
    let blob = schema.fields[4].dynamic.as_ref().unwrap();
    assert_eq!(blob.deps, vec![1, 2]);
    assert_eq!(blob.rule, DynamicRule::Length);
}

#[test]
fn schema_without_attributes_or_fields_is_accepted() {
    let schema = PacketSchema::new("Empty".to_string(), Vec::new(), Vec::new()).unwrap();
    assert_eq!(schema.login_opcode, None);
    assert_eq!(schema.world_opcode, None);
    assert_eq!(schema.compressed_opcode, None);
    assert!(schema.fields.is_empty());
}

#[test]
fn login_and_compressed_opcode_may_stand_together() {
    let schema = PacketSchema::new(
        "Both".to_string(),
        vec![ItemAttr::CompressedOpcode(999), ItemAttr::LoginOpcode(1)],
        Vec::new(),
    )
    .unwrap();
    assert_eq!(schema.login_opcode, Some(1));
    assert_eq!(schema.compressed_opcode, Some(999));
}

#[test]
fn duplicate_header_attribute_is_a_schema_violation() {
    assert!(violation(vec![ItemAttr::LoginOpcode(1), ItemAttr::LoginOpcode(2)], Vec::new()));
    assert!(violation(vec![ItemAttr::LoginOpcode(1), ItemAttr::LoginOpcode(1)], Vec::new()));
    assert!(violation(
        vec![ItemAttr::CompressedOpcode(1), ItemAttr::WorldOpcode(3), ItemAttr::CompressedOpcode(2)],
        Vec::new()
    ));
    assert!(violation(
        vec![ItemAttr::WorldOpcode(1), ItemAttr::LoginOpcode(3), ItemAttr::WorldOpcode(2)],
        Vec::new()
    ));
}

#[test]
fn dependency_on_itself_is_a_schema_violation() {
    assert!(violation(
        Vec::new(),
        vec![
            plain("size", FieldType::U32),
            dynamic("nickname", FieldType::U8, &["nickname"], DynamicRule::Presence),
        ]
    ));
}

#[test]
fn dependency_on_a_later_field_is_a_schema_violation() {
    assert!(violation(
        Vec::new(),
        vec![
            dynamic("nickname", FieldType::Text, &["nickname_size"], DynamicRule::Presence),
            plain("nickname_size", FieldType::U32),
        ]
    ));
    assert!(violation(
        Vec::new(),
        vec![
            plain("a", FieldType::U8),
            dynamic("b", FieldType::Text, &["a", "c"], DynamicRule::Presence),
            plain("c", FieldType::U8),
        ]
    ));
}

#[test]
fn dependency_on_an_unknown_name_is_a_schema_violation() {
    assert!(violation(
        Vec::new(),
        vec![
            plain("a", FieldType::U8),
            dynamic("b", FieldType::Text, &["z"], DynamicRule::Presence),
        ]
    ));
}

#[test]
fn empty_dependency_list_is_a_schema_violation() {
    assert!(violation(
        Vec::new(),
        vec![plain("a", FieldType::U8), dynamic("b", FieldType::Text, &[], DynamicRule::Presence)]
    ));
}

#[test]
fn dependency_on_a_field_without_a_number_is_a_schema_violation() {
    assert!(violation(
        Vec::new(),
        vec![
            plain("a", FieldType::Text),
            dynamic("b", FieldType::U8, &["a"], DynamicRule::Presence),
        ]
    ));
    assert!(violation(
        Vec::new(),
        vec![
            plain("a", FieldType::Bytes(2)),
            dynamic("b", FieldType::U8, &["a"], DynamicRule::Presence),
        ]
    ));
}

#[test]
fn length_rule_on_a_field_that_is_no_run_of_bytes_is_a_schema_violation() {
    assert!(violation(
        Vec::new(),
        vec![plain("n", FieldType::U8), dynamic("t", FieldType::Text, &["n"], DynamicRule::Length)]
    ));
    assert!(violation(
        Vec::new(),
        vec![plain("n", FieldType::U8), dynamic("t", FieldType::U32, &["n"], DynamicRule::Length)]
    ));
}

#[test]
fn duplicate_field_name_is_a_schema_violation() {
    assert!(violation(
        Vec::new(),
        vec![plain("a", FieldType::U8), plain("b", FieldType::U8), plain("a", FieldType::U16)]
    ));
}

#[test]
fn two_attributes_on_one_field_are_a_schema_violation() {
    let twice = FieldDecl {
        name: "b".to_string(),
        ty: FieldType::U8,
        attributes: vec![
            FieldAttr::Dynamic { deps: vec!["a".to_string()], rule: DynamicRule::Presence },
            FieldAttr::Dynamic { deps: vec!["a".to_string()], rule: DynamicRule::Presence },
        ],
    };
    assert!(violation(Vec::new(), vec![plain("a", FieldType::U8), twice]));
}

#[test]
fn dynamic_field_may_depend_on_a_dynamic_field() {
    let schema = PacketSchema::new(
        "Chain".to_string(),
        Vec::new(),
        vec![
            plain("a", FieldType::U8),
            dynamic("b", FieldType::U16, &["a"], DynamicRule::Presence),
            dynamic("c", FieldType::Text, &["b", "a"], DynamicRule::Presence),
        ],
    )
    .unwrap();
    assert_eq!(schema.fields[1].dynamic.as_ref().unwrap().deps, vec![0]);
    assert_eq!(schema.fields[2].dynamic.as_ref().unwrap().deps, vec![1, 0]);
}

fn spec(name: &str, ty: FieldType, dynamic: Option<Dynamic>) -> FieldSpec {
    FieldSpec { name: name.to_string(), ty, dynamic }
}

fn presence(deps: Vec<usize>) -> Option<Dynamic> {
    Some(Dynamic { deps, rule: DynamicRule::Presence })
}

fn length(deps: Vec<usize>) -> Option<Dynamic> {
    Some(Dynamic { deps, rule: DynamicRule::Length })
}

#[test]
fn nested_record_is_declared_with_its_resolved_fields() {
    let inner = PacketSchema::new(
        "Pos".to_string(),
        Vec::new(),
        vec![
            plain("x", FieldType::U16),
            dynamic("y", FieldType::U16, &["x"], DynamicRule::Presence),
        ],
    )
    .unwrap();
    let outer = PacketSchema::new(
        "Player".to_string(),
        Vec::new(),
        vec![
            plain("id", FieldType::U8),
            plain("pos", FieldType::Record(duplicate_fields(&inner.fields))),
            dynamic("home", FieldType::Record(inner.fields), &["id"], DynamicRule::Presence),
        ],
    )
    .unwrap();
    assert!(outer.well_formed());
    match &outer.fields[1].ty {
        FieldType::Record(fields) => {
            assert_eq!(fields.len(), 2);
            assert_eq!(fields[1].name, "y");
            assert_eq!(fields[1].dynamic.as_ref().unwrap().deps, vec![0]);
        }
        _ => panic!("pos is a record"),
    }
    assert_eq!(outer.fields[2].dynamic.as_ref().unwrap().deps, vec![0]);
}

#[test]
fn nested_record_that_breaks_the_rules_is_a_schema_violation() {
    let forward = FieldType::Record(vec![
        spec("a", FieldType::U8, presence(vec![1])),
        spec("b", FieldType::U8, None),
    ]);
    assert!(violation(Vec::new(), vec![plain("n", forward)]));
    let twice = FieldType::Record(vec![spec("a", FieldType::U8, None), spec("a", FieldType::U8, None)]);
    assert!(violation(Vec::new(), vec![plain("n", twice)]));
    let deep = FieldType::Record(vec![spec(
        "in",
        FieldType::Record(vec![spec("a", FieldType::U8, presence(vec![0]))]),
        None,
    )]);
    assert!(violation(Vec::new(), vec![plain("n", deep)]));
}

#[test]
fn dependency_on_a_nested_record_is_a_schema_violation() {
    assert!(violation(
        Vec::new(),
        vec![
            plain("r", FieldType::Record(vec![spec("a", FieldType::U8, None)])),
            dynamic("b", FieldType::U8, &["r"], DynamicRule::Presence),
        ]
    ));
}

#[test]
fn well_formed_fields_keep_every_rule() {
    assert!(well_formed(&Vec::new()));
    assert!(well_formed(&vec![
        spec("a", FieldType::U8, None),
        spec("b", FieldType::Text, presence(vec![0])),
        spec("c", FieldType::Bytes(0), length(vec![0])),
        spec("d", FieldType::Record(vec![spec("a", FieldType::U64, None)]), presence(vec![0, 0])),
    ]));
    let a = || spec("a", FieldType::U8, None);
    assert!(!well_formed(&vec![a(), spec("b", FieldType::U8, presence(vec![]))]));
    assert!(!well_formed(&vec![a(), spec("b", FieldType::U8, presence(vec![1]))]));
    assert!(!well_formed(&vec![a(), spec("b", FieldType::U8, presence(vec![0, 2]))]));
    assert!(!well_formed(&vec![spec("b", FieldType::U8, presence(vec![0])), a()]));
    assert!(!well_formed(&vec![a(), spec("b", FieldType::Text, length(vec![0]))]));
    assert!(!well_formed(&vec![a(), spec("a", FieldType::U16, None)]));
    assert!(!well_formed(&vec![
        spec("t", FieldType::Text, None),
        spec("b", FieldType::U8, presence(vec![0])),
    ]));
    assert!(!well_formed(&vec![
        a(),
        spec("r", FieldType::Record(vec![spec("x", FieldType::U8, presence(vec![0]))]), None),
    ]));
    assert!(well_formed(&vec![
        a(),
        spec("r", FieldType::Record(vec![a(), spec("x", FieldType::U8, presence(vec![0]))]), None),
    ]));
}

#[test]
fn hand_built_schema_is_checked_for_well_formedness() {
    let schema = |fields| PacketSchema {
        name: "S".to_string(),
        login_opcode: None,
        world_opcode: None,
        compressed_opcode: None,
        fields,
    };
    assert!(schema(vec![spec("a", FieldType::U8, None)]).well_formed());
    assert!(!schema(vec![spec("a", FieldType::U8, presence(vec![0]))]).well_formed());
}

#[test]
fn schemas_are_copied_with_what_is_nested_in_them() {
    let ty = FieldType::Record(vec![
        spec("a", FieldType::U8, None),
        spec("r", FieldType::Record(vec![spec("x", FieldType::Bytes(3), None)]), presence(vec![0])),
    ]);
    assert_eq!(ty.duplicate(), ty);
    assert_eq!(ty.clone(), ty);
    let field = spec("f", ty.clone(), length(vec![4, 2]));
    assert_eq!(field.clone(), field);
    let schema = PacketSchema {
        name: "S".to_string(),
        login_opcode: Some(1),
        world_opcode: None,
        compressed_opcode: Some(2),
        fields: vec![field.clone(), spec("g", FieldType::Text, None)],
    };
    assert_eq!(schema.clone(), schema);
    assert_eq!(duplicate_fields(&schema.fields), schema.fields);
    assert_eq!(duplicate_deps(&vec![3, 1, 2]), vec![3, 1, 2]);
}
