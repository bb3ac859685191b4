use print3rs::encoder::{
    is_well_formed, serialize_sequenced, serialize_unsequenced, Field, GcodeLine, Sequenced,
    Value, SEQUENCE_START,
};

fn m1234() -> Value {
    Value::Group { tag: b"M1234".to_vec(), fields: vec![] }
}

fn g1234(x: i32, y: f32) -> Value {
    Value::Group {
        tag: b"G1234".to_vec(),
        fields: vec![
            Field { key: b"x".to_vec(), value: Value::Int(x as i64) },
            Field { key: b"y".to_vec(), value: Value::Text(ryu::Buffer::new().format(y).as_bytes().to_vec()) },
        ],
    }
}

#[test]
fn unit_serialize_works() {
    let mut writer = Sequenced::default();
    let out = writer.serialize_unsequenced(&m1234());
    let expected: &[u8] = b"M1234\n";
    assert_eq!(out.as_slice(), expected);

    let out = writer.serialize(&g1234(-1, 2.3));
    let expected: &[u8] = b"N1G1234X-1Y2.3*14\n";
    assert_eq!(out.1.as_slice(), expected);
}

#[test]
fn atomic_counter() {
    let mut writer = Sequenced::default();

    let out = writer.serialize(&g1234(-1, 2.3));
    let expected: &[u8] = b"N1G1234X-1Y2.3*14\n";
    assert_eq!(out.1.as_slice(), expected);

    let out = writer.serialize(&g1234(-1, 2.3));
    let expected: &[u8] = b"N2G1234X-1Y2.3*13\n";
    assert_eq!(out.1.as_slice(), expected);

    let out = writer.serialize(&g1234(-1, 2.3));
    let expected: &[u8] = b"N3G1234X-1Y2.3*12\n";
    assert_eq!(out.1.as_slice(), expected);
}

#[test]
fn sequenced_formatting_moves_the_counter() {
    let mut writer = Sequenced::new();
    assert_eq!(writer.sequence(), SEQUENCE_START);
    let (sequence, bytes) = writer.serialize(&g1234(-1, 2.3));
    assert_eq!(sequence, 1);
    assert_eq!(bytes, b"N1G1234X-1Y2.3*14\n".to_vec());
    assert_eq!(writer.sequence(), 2);
}

#[test]
fn unsequenced_formatting_leaves_the_counter() {
    let writer = Sequenced::new();
    assert_eq!(writer.serialize_unsequenced(&m1234()), b"M1234\n".to_vec());
    assert_eq!(serialize_unsequenced(&m1234()), b"M1234\n".to_vec());
    assert_eq!(writer.sequence(), 1);
}

#[test]
fn set_sequence_replaces_the_counter() {
    let mut writer = Sequenced::new();
    writer.set_sequence(41);
    let (sequence, bytes) = writer.serialize(&Value::Text(b"G28".to_vec()));
    assert_eq!(sequence, 41);
    assert!(bytes.starts_with(b"N41G28*"));
    assert_eq!(writer.sequence(), 42);
}

#[test]
fn counter_wraps_at_the_end_of_its_range() {
    let mut writer = Sequenced::new();
    writer.set_sequence(i32::MAX);
    let (sequence, _) = writer.serialize(&Value::Nothing);
    assert_eq!(sequence, i32::MAX);
    assert_eq!(writer.sequence(), i32::MIN);
}

fn checksum_holds(line: &[u8]) -> bool {
    let star = line.iter().rposition(|b| *b == b'*').unwrap();
    let sum = line[..star].iter().fold(0u8, |acc, b| acc ^ b);
    assert_eq!(line[line.len() - 1], b'\n');
    let digits = std::str::from_utf8(&line[star + 1..line.len() - 1]).unwrap();
    digits.parse::<u8>().unwrap() == sum
}

#[test]
fn checksum_is_xor_of_what_precedes_the_star() {
    for sequence in [1, 2, 9, 10, 99, 12345, -7, i32::MAX, i32::MIN] {
        let line = serialize_sequenced(sequence, &g1234(250, 0.5));
        assert!(checksum_holds(&line));
    }
    let line = serialize_sequenced(7, &Value::Text(b"M117 a*b".to_vec()));
    assert!(checksum_holds(&line));
}

#[test]
fn integers_render_in_shortest_decimal_form() {
    assert_eq!(serialize_unsequenced(&Value::Int(0)), b"0\n".to_vec());
    assert_eq!(serialize_unsequenced(&Value::Int(-1)), b"-1\n".to_vec());
    assert_eq!(serialize_unsequenced(&Value::Int(1500)), b"1500\n".to_vec());
    assert_eq!(serialize_unsequenced(&Value::Int(i64::MIN)), b"-9223372036854775808\n".to_vec());
    assert_eq!(serialize_unsequenced(&Value::Unsigned(u64::MAX)), b"18446744073709551615\n".to_vec());
}

#[test]
fn booleans_render_as_digits_and_nothing_as_nothing() {
    assert_eq!(serialize_unsequenced(&Value::Bool(true)), b"1\n".to_vec());
    assert_eq!(serialize_unsequenced(&Value::Bool(false)), b"0\n".to_vec());
    assert_eq!(serialize_unsequenced(&Value::Nothing), b"\n".to_vec());
}

#[test]
fn nested_values_render_in_order() {
    let inner = Value::Group {
        tag: b"".to_vec(),
        fields: vec![
            Field { key: b"feed".to_vec(), value: Value::Int(1500) },
            Field { key: b"skip".to_vec(), value: Value::Nothing },
            Field { key: b"extrude".to_vec(), value: Value::Bool(true) },
        ],
    };
    let value = Value::List(vec![Value::Text(b"G1".to_vec()), inner, Value::Text(b";".to_vec())]);
    assert_eq!(serialize_unsequenced(&value), b"G1F1500SE1;\n".to_vec());
}

#[test]
fn label_is_the_first_character_in_upper_case() {
    let value = Value::Group {
        tag: b"G0".to_vec(),
        fields: vec![
            Field { key: "émile".as_bytes().to_vec(), value: Value::Int(1) },
            Field { key: b"Zed".to_vec(), value: Value::Int(2) },
            Field { key: b"9".to_vec(), value: Value::Int(3) },
        ],
    };
    assert!(is_well_formed(&value));
    assert_eq!(serialize_unsequenced(&value), "G0é1Z293\n".as_bytes().to_vec());
}

#[test]
fn keys_must_begin_with_a_whole_character() {
    let empty = Value::Group {
        tag: b"G0".to_vec(),
        fields: vec![Field { key: vec![], value: Value::Int(1) }],
    };
    assert!(!is_well_formed(&empty));
    let cut = Value::List(vec![Value::Group {
        tag: b"G0".to_vec(),
        fields: vec![Field { key: vec![0xC3], value: Value::Int(1) }],
    }]);
    assert!(!is_well_formed(&cut));
    assert!(is_well_formed(&Value::List(vec![Value::Int(1), Value::Nothing])));
}

#[test]
fn line_builder_writes_and_finishes() {
    let mut line = GcodeLine::new();
    line.write(b"N1");
    line.serialize(&Value::Text(b"G28".to_vec()));
    let bytes = line.finish_with_checksum();
    assert!(checksum_holds(&bytes));
    assert!(bytes.starts_with(b"N1G28*"));

    let mut line = GcodeLine::new();
    line.write(b"M105");
    assert_eq!(line.finish(), b"M105\n".to_vec());
}

#[test]
fn counter_that_goes_back_is_announced() {
    let mut writer = Sequenced::new();
    assert_eq!(writer.resync(1), None);
    assert_eq!(writer.resync(50), None);
    assert_eq!(writer.sequence(), 50);
    assert_eq!(writer.resync(1), Some(b"M110 N1\n".to_vec()));
    assert_eq!(writer.sequence(), 1);
    assert_eq!(writer.resync(-3), Some(b"M110 N-3\n".to_vec()));
    let (sequence, _) = writer.serialize(&Value::Nothing);
    assert_eq!(sequence, -3);
}
