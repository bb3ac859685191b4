use print3rs::encoder::{is_well_formed, serialize_unsequenced, Field, Value};
use print3rs::tasks::gcode_lines;
use print3rs::text::{bytes_eq, join, to_upper_vec, trim};

fn characters() -> impl Iterator<Item = char> {
    (0..0x3100u32).chain((0x3100..=0x10FFFFu32).step_by(97)).filter_map(char::from_u32)
}

#[test]
fn trimming_agrees_with_the_standard_library() {
    for c in characters() {
        let text = format!("{c}{c}a{c}b{c}");
        assert_eq!(trim(text.as_bytes()), text.trim().as_bytes(), "{c:?}");
    }
    for text in ["", " ", "\t\n\r x \u{b}\u{c}", "\u{3000}", "a", " a b ", "\u{a0}\u{2003}a\u{85}"] {
        assert_eq!(trim(text.as_bytes()), text.trim().as_bytes(), "{text:?}");
    }
}

#[test]
fn labels_agree_with_the_standard_library() {
    for c in characters() {
        let key = format!("{c}rest");
        let value = Value::Group {
            tag: vec![],
            fields: vec![Field { key: key.into_bytes(), value: Value::Nothing }],
        };
        assert!(is_well_formed(&value));
        let expected = format!("{}\n", c.to_ascii_uppercase());
        assert_eq!(serialize_unsequenced(&value), expected.into_bytes(), "{c:?}");
    }
}

#[test]
fn upper_case_agrees_with_the_standard_library() {
    let all: Vec<u8> = (0..=255u8).collect();
    assert_eq!(to_upper_vec(&all), all.to_ascii_uppercase());
    assert_eq!(to_upper_vec("grüße g1".as_bytes()), "grüße g1".to_ascii_uppercase().as_bytes());
}

fn lines_by_the_standard_library(text: &str) -> Vec<&[u8]> {
    let mut codes = Vec::new();
    for line in text.lines() {
        let line = match line.split_once(';') {
            Some((s, _)) => s,
            None => line,
        };
        if line.is_empty() {
            continue;
        };
        codes.push(line.as_bytes());
    }
    codes
}

#[test]
fn file_lines_agree_with_the_standard_library() {
    let pieces = ["", "G1", ";", "\n", "\r", "\r\n", " ", "G1 X5 ; move", ";;", "\n\n", "\r\r\n", "é"];
    for a in pieces {
        for b in pieces {
            for c in pieces {
                for d in pieces {
                    let text = format!("{a}{b}{c}{d}");
                    assert_eq!(
                        gcode_lines(text.as_bytes()),
                        lines_by_the_standard_library(&text),
                        "{text:?}"
                    );
                }
            }
        }
    }
}

#[test]
fn joining_and_comparing() {
    assert_eq!(join(&[b"a", b"bc", b""], b';'), b"a;bc;".to_vec());
    assert_eq!(join(&[], b','), Vec::<u8>::new());
    assert_eq!(join(&[b"only"], b','), b"only".to_vec());
    assert!(bytes_eq(b"abc", b"abc"));
    assert!(!bytes_eq(b"abc", b"abd"));
    assert!(!bytes_eq(b"abc", b"ab"));
    assert!(bytes_eq(b"", b""));
}
