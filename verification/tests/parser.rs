use can_dbc::{
    attribute_default, attribute_value_for_object, c_ident, c_ident_vec, comment,
    custom_attr_def, dbc_definition, endianess, environment_variable, envvar_data,
    message_definition, network_node, new_symbols, signal, signal_type, value_descriptions,
    value_type, version, AccessNode, AccessType, AttributeValue, AttributeValuedForObjectType,
    DbcElement, Endianess, EnvType, FloatLiteral, MessageId, SignalCommentId, SignalType, Symbol,
    ValueDescription, ValueType, Version,
};

fn float(text: &str) -> FloatLiteral {
    FloatLiteral(text.to_string())
}

#[test]
fn c_ident_test() {
    let def1 = b"EALL_DUSasb18 ";
    let (_, cid1) = c_ident(def1).unwrap();
    assert_eq!("EALL_DUSasb18", cid1);

    let def2 = b"_EALL_DUSasb18 ";
    let (_, cid2) = c_ident(def2).unwrap();
    assert_eq!("_EALL_DUSasb18", cid2);

    // identifiers must not start with digits
    let def3 = b"3EALL_DUSasb18 ";
    let cid3_result = c_ident(def3);
    assert!(cid3_result.is_err());
}

#[test]
fn c_ident_vec_test() {
    let cid = b"FZHL_DUSasb18 ";
    let (_, cid1) = c_ident_vec(cid).unwrap();

    assert_eq!(vec!("FZHL_DUSasb18".to_string()), cid1);

    let cid_vec = b"FZHL_DUSasb19,xkask_3298 ";
    let (_, cid2) = c_ident_vec(cid_vec).unwrap();

    assert_eq!(
        vec!("FZHL_DUSasb19".to_string(), "xkask_3298".to_string()),
        cid2
    );
}

#[test]
fn signal_test() {
    let signal_line = b" SG_ NAME : 3|2@1- (1,0) [0|0] \"x\" UFA\r\n\r\n";
    let _signal1 = signal(signal_line).unwrap();
}

#[test]
fn endianess_test() {
    let (_, big_endian) = endianess(b"0").expect("Failed to parse big endian");
    assert_eq!(Endianess::BigEndian, big_endian);

    let (_, little_endian) = endianess(b"1").expect("Failed to parse little endian");
    assert_eq!(Endianess::LittleEndian, little_endian);
}

#[test]
fn signal_type_test() {
    let (_, multiplexer) = signal_type(b"m34920 ").expect("Failed to parse multiplexer");
    assert_eq!(SignalType::MultiplexedSignal(34920), multiplexer);

    let (_, multiplexor) = signal_type(b"M ").expect("Failed to parse multiplexor");
    assert_eq!(SignalType::Multiplexor, multiplexor);

    let (_, plain) = signal_type(b" ").expect("Failed to parse plain");
    assert_eq!(SignalType::Plain, plain);
}

#[test]
fn value_type_test() {
    let (_, vt) = value_type(b"- ").expect("Failed to parse value type");
    assert_eq!(ValueType::Signed, vt);

    let (_, vt) = value_type(b"+ ").expect("Failed to parse value type");
    assert_eq!(ValueType::Unsigned, vt);
}

#[test]
fn message_definition_test() {
    let def = b"BO_ 1 MCA_A1: 6 MFA
        SG_ ABC_1 : 9|2@1+ (1,0) [0|0] \"x\" XYZ_OUS
        SG_ BasL2 : 3|2@0- (1,0) [0|0] \"x\" DFA_FUS\r\n\r\n";
    let (_, _message_def) = message_definition(def).expect("Failed to parse message definition");
}

#[test]
fn signal_comment_test() {
    let def1 = b"CM_ SG_ 193 KLU_R_X \"This is a signal comment test\";";
    let id1 = SignalCommentId(193);
    let comment1 = DbcElement::SignalComment(
        id1,
        "KLU_R_X".to_string(),
        "This is a signal comment test".to_string(),
        false,
    );
    let (_, comment1_def) = comment(def1).expect("Failed to parse signal comment definition");
    assert_eq!(comment1, comment1_def);
}

#[test]
fn message_definition_comment_test() {
    let def1 = b"CM_ BO_ 34544 XYZ \"Some Message comment\";";
    let id1 = MessageId(34544);
    let comment1 = DbcElement::MessageDefinitionComment(
        id1,
        "XYZ".to_string(),
        "Some Message comment".to_string(),
        false,
    );
    let (_, comment1_def) =
        comment(def1).expect("Failed to parse message definition comment definition");
    assert_eq!(comment1, comment1_def);
}

#[test]
fn value_description_for_signal_test() {
    let def1 = b"VAL_ 837 UF_HZ_OI 255 \"NOP\" ;";
    let id = MessageId(837);
    let name = "UF_HZ_OI".to_string();
    let descriptions = vec![ValueDescription {
        a: float("255"),
        b: "NOP".to_string(),
    }];
    let value_description_for_signal1 =
        DbcElement::ValueDescriptionsForSignal(id, name, descriptions);
    let (_, value_signal_def) =
        value_descriptions(def1).expect("Failed to parse value desc for signal");
    assert_eq!(value_description_for_signal1, value_signal_def);
    match value_signal_def {
        DbcElement::ValueDescriptionsForSignal(_, _, d) => {
            assert_eq!(d[0].a.0.parse::<f64>(), Ok(255.0));
        }
        _ => unreachable!(),
    }
}

#[test]
fn value_description_for_env_var_test() {
    let def1 = b"VAL_ MY_ENV_VAR 255 \"NOP\" ;";
    let name = "MY_ENV_VAR".to_string();
    let descriptions = vec![ValueDescription {
        a: float("255"),
        b: "NOP".to_string(),
    }];
    let value_env_var1 = DbcElement::ValueDescriptionsForEnvVar(name, descriptions);
    let (_, value_env_var) =
        value_descriptions(def1).expect("Failed to parse value desc for env var");
    assert_eq!(value_env_var1, value_env_var);
    match value_env_var {
        DbcElement::ValueDescriptionsForEnvVar(_, d) => {
            assert_eq!(d[0].a.0.parse::<f64>(), Ok(255.0));
        }
        _ => unreachable!(),
    }
}

#[test]
fn environment_variable_test() {
    let def1 = b"EV_ IUV: 0 [-22|20] \"mm\" 3 7 DUMMY_NODE_VECTOR0 VECTOR_XXX;";
    let nodes1 = vec![AccessNode::AccessNodeVectorXXX];
    let env_var1 = DbcElement::EnvVariable(
        "IUV".to_string(),
        EnvType::EnvTypeFloat,
        -22,
        20,
        "mm".to_string(),
        float("3"),
        7,
        AccessType::DUMMY_NODE_VECTOR0,
        nodes1,
    );
    let (_, env_var) =
        environment_variable(def1).expect("Failed to parse environment variable");
    assert_eq!(env_var1, env_var);
    match env_var {
        DbcElement::EnvVariable(_, _, _, _, _, initial, _, _, _) => {
            assert_eq!(initial.0.parse::<f64>(), Ok(3.0));
        }
        _ => unreachable!(),
    }
}

#[test]
fn network_node_attribute_value_test() {
    let def = b"BA_ \"AttrName\" BU_ NodeName 12;\n";
    let node = AttributeValuedForObjectType::NetworkNodeAttributeValue(
        "NodeName".to_string(),
        AttributeValue::AttributeValueU64(12),
    );
    let attr_val_exp = DbcElement::AttributeValueForObject("AttrName".to_string(), node);
    let (_, attr_val) = attribute_value_for_object(def).unwrap();
    assert_eq!(attr_val_exp, attr_val);
}

#[test]
fn message_definition_attribute_value_test() {
    let def = b"BA_ \"AttrName\" BO_ 298 13;\n";
    let msg_def = AttributeValuedForObjectType::MessageDefinitionAttributeValue(
        MessageId(298),
        AttributeValue::AttributeValueU64(13),
    );
    let attr_val_exp = DbcElement::AttributeValueForObject("AttrName".to_string(), msg_def);
    let (_, attr_val) = attribute_value_for_object(def).unwrap();
    assert_eq!(attr_val_exp, attr_val);
}

#[test]
fn signal_attribute_value_test() {
    let def = b"BA_ \"AttrName\" SG_ 198 SGName 13;\n";
    let msg_def = AttributeValuedForObjectType::SignalAttributeValue(
        MessageId(198),
        "SGName".to_string(),
        AttributeValue::AttributeValueU64(13),
    );
    let attr_val_exp = DbcElement::AttributeValueForObject("AttrName".to_string(), msg_def);
    let (_, attr_val) = attribute_value_for_object(def).unwrap();
    assert_eq!(attr_val_exp, attr_val);
}

#[test]
fn env_var_attribute_value_test() {
    let def = b"BA_ \"AttrName\" EV_ EvName \"CharStr\";\n";
    let msg_def = AttributeValuedForObjectType::EnvVariableAttributeValue(
        "EvName".to_string(),
        AttributeValue::AttributeValueCharString("CharStr".to_string()),
    );
    let attr_val_exp = DbcElement::AttributeValueForObject("AttrName".to_string(), msg_def);
    let (_, attr_val) = attribute_value_for_object(def).unwrap();
    assert_eq!(attr_val_exp, attr_val);
}

#[test]
fn raw_attribute_value_test() {
    let def = b"BA_ \"AttrName\" \"RAW\";\n";
    let msg_def = AttributeValuedForObjectType::RawAttributeValue(
        AttributeValue::AttributeValueCharString("RAW".to_string()),
    );
    let attr_val_exp = DbcElement::AttributeValueForObject("AttrName".to_string(), msg_def);
    let (_, attr_val) = attribute_value_for_object(def).unwrap();
    assert_eq!(attr_val_exp, attr_val);
}

#[test]
fn new_symbols_test() {
    let def = b"NS_ :
                NS_DESC_
                CM_
                BA_DEF_

            ";
    let symbols_exp = vec![
        Symbol("NS_DESC_".to_string()),
        Symbol("CM_".to_string()),
        Symbol("BA_DEF_".to_string()),
    ];
    let (_, symbols) = new_symbols(def).unwrap();
    assert_eq!(symbols_exp, symbols);
}

#[test]
fn network_node_test() {
    let def = b"BU_: ZU XYZ ABC OIU\n";
    let nodes = vec![
        "ZU".to_string(),
        "XYZ".to_string(),
        "ABC".to_string(),
        "OIU".to_string(),
    ];
    let (_, node) = network_node(def).unwrap();
    let node_exp = DbcElement::NetworkNode(nodes);
    assert_eq!(node_exp, node);
}

#[test]
fn envvar_data_test() {
    let def = b"ENVVAR_DATA_ SomeEnvVarData: 399;";
    let (_, envvar_data) = envvar_data(def).unwrap();
    let envvar_data_exp = DbcElement::EnvVarData("SomeEnvVarData".to_string(), 399);
    assert_eq!(envvar_data_exp, envvar_data);
}

#[test]
fn attribute_default_test() {
    let def = b"BA_DEF_DEF_ \"ZUV\" \"OAL\";";
    let (_, attr_default) = attribute_default(def).unwrap();
    let attr_default_exp = DbcElement::AttributeDefault(
        "ZUV".to_string(),
        AttributeValue::AttributeValueCharString("OAL".to_string()),
    );
    assert_eq!(attr_default_exp, attr_default);
}

#[test]
fn custom_attr_def_test() {
    let def_bo = b"BA_DEF_ BO_  \"BaDef1BO\" INT 0 1000000;";
    let (_, bo_def) = custom_attr_def(def_bo).unwrap();
    let bo_def_exp = DbcElement::BODef(" \"BaDef1BO\" INT 0 1000000".to_string());
    assert_eq!(bo_def_exp, bo_def);

    let def_bu = b"BA_DEF_ BU_  \"BuDef1BO\" INT 0 1000000;";
    let (_, bu_def) = custom_attr_def(def_bu).unwrap();
    let bu_def_exp = DbcElement::BUDef(" \"BuDef1BO\" INT 0 1000000".to_string());
    assert_eq!(bu_def_exp, bu_def);
}

#[test]
fn version_test() {
    let def = b"VERSION \"HNPBNNNYNNNNNNNNNNNNNNNNNNNNNNNNYNYYYYYYYY>4>%%%/4>'%**4YYY///\"";
    let version_exp =
        Version("HNPBNNNYNNNNNNNNNNNNNNNNNNNNNNNNYNYYYYYYYY>4>%%%/4>'%**4YYY///".to_string());
    let (_, version) = version(def).unwrap();
    assert_eq!(version_exp, version);
}

#[test]
fn dbc_definition_test() {
    let sample_dbc = b"
        VERSION \"0.1\"

        NS_ :
            NS_DESC_
            CM_
            BA_DEF_
            BA_
            VAL_
            CAT_DEF_
            CAT_
            FILTER
            BA_DEF_DEF_
            EV_DATA_
            ENVVAR_DATA_
            SGTYPE_
            SGTYPE_VAL_
            BA_DEF_SGTYPE_
            BA_SGTYPE_
            SIG_TYPE_REF_
            VAL_TABLE_
            SIG_GROUP_
            SIG_VALTYPE_
            SIGTYPE_VALTYPE_
            BO_TX_BU_
            BA_DEF_REL_
            BA_REL_
            BA_DEF_DEF_REL_
            BU_SG_REL_
            BU_EV_REL_
            BU_BO_REL_
            SG_MUL_VAL_

        BU_: PC

        BO_ 2000 WebData_2000: 4 Vector__XXX
            SG_ Signal_8 : 24|8@1+ (1,0) [0|255] \"\" Vector__XXX
            SG_ Signal_7 : 16|8@1+ (1,0) [0|255] \"\" Vector__XXX
            SG_ Signal_6 : 8|8@1+ (1,0) [0|255] \"\" Vector__XXX
            SG_ Signal_5 : 0|8@1+ (1,0) [0|255] \"\" Vector__XXX

        BO_ 1840 WebData_1840: 4 PC
            SG_ Signal_4 : 24|8@1+ (1,0) [0|255] \"\" Vector__XXX
            SG_ Signal_3 : 16|8@1+ (1,0) [0|255] \"\" Vector__XXX
            SG_ Signal_2 : 8|8@1+ (1,0) [0|255] \"\" Vector__XXX
            SG_ Signal_1 : 0|8@1+ (1,0) [0|0] \"\" Vector__XXX

        EV_ Environment1: 0 [0|220] \"\" 0 6 DUMMY_NODE_VECTOR0 DUMMY_NODE_VECTOR2;

        EV_ Environment2: 0 [0|177] \"\" 0 7 DUMMY_NODE_VECTOR1 DUMMY_NODE_VECTOR2;

        BA_DEF_DEF_ \"BusType\" \"AS\";

        ENVVAR_DATA_ SomeEnvVarData: 399;

        CM_ SG_ 4 TestSigLittleUnsigned1 \"asaklfjlsdfjlsdfgls
        HH?=(%)/&KKDKFSDKFKDFKSDFKSDFNKCnvsdcvsvxkcv\";
        CM_ SG_ 5 TestSigLittleUnsigned1 \"asaklfjlsdfjlsdfgls
        =0943503450KFSDKFKDFKSDFKSDFNKCnvsdcvsvxkcv\";
        BA_ \"Attr\" BO_ 4358435 283;
        BA_ \"Attr\" BO_ 56949545 344;
        VAL_ 3454 TestValue 3423232 \"positive\" 359595 \"doe\" -1393 \"john\" ;
        VAL_ 3454 TestValue 3423232 \"positive\" 359595 \"doe\" -1393 \"positive\" 359595 \"doe\" -1393 \"john\" ;
        ";

    let (remaining, dbc_def) = dbc_definition(sample_dbc).unwrap();

    println!(
        "Remaining {:?}\nResult {:?}",
        std::str::from_utf8(remaining).unwrap(),
        dbc_def
    );
}
