use enum_delegator::lines::{escape, join_escaped, split_lines, unescape};
use enum_delegator::transport::method_name;
use enum_delegator::{decode_signature, encode_signature, MethodSignature, Param, Receiver};

fn param(name: &str, ty: &str) -> Param {
    Param { name: name.to_string(), ty: ty.to_string() }
}

fn signature(
    name: &str,
    receiver: Receiver,
    params: Vec<Param>,
    ret: Option<&str>,
) -> MethodSignature {
    MethodSignature {
        name: name.to_string(),
        receiver,
        params,
        ret: ret.map(|ty| ty.to_string()),
    }
}

#[test]
fn encode_writes_one_field_per_line() {
    let sig = signature("method_c", Receiver::Ref, vec![param("a", "bool")], Some("i64"));
    assert_eq!(encode_signature(&sig), "method_c\n&self\na\nbool\ni64");
}

#[test]
fn encode_writes_each_receiver_in_its_own_way() {
    assert_eq!(encode_signature(&signature("f", Receiver::Value, vec![], None)), "f\nself");
    assert_eq!(encode_signature(&signature("f", Receiver::Ref, vec![], None)), "f\n&self");
    assert_eq!(encode_signature(&signature("f", Receiver::RefMut, vec![], None)), "f\n&mut self");
}

#[test]
fn encode_keeps_the_order_of_the_parameters() {
    let sig = signature(
        "resize",
        Receiver::RefMut,
        vec![param("width", "u32"), param("height", "u32"), param("fill", "Option < u8 >")],
        None,
    );
    assert_eq!(
        encode_signature(&sig),
        "resize\n&mut self\nwidth\nu32\nheight\nu32\nfill\nOption < u8 >"
    );
}

#[test]
fn encode_escapes_line_feed_and_backslash() {
    let sig = signature("a\nb\\c", Receiver::Value, vec![], Some("\n"));
    assert_eq!(encode_signature(&sig), "a\\nb\\\\c\nself\n\\n");
}

#[test]
fn escape_leaves_other_characters_alone() {
    assert_eq!(escape(""), "");
    assert_eq!(escape("& 'static str"), "& 'static str");
    assert_eq!(escape("n\\n"), "n\\\\n");
    assert_eq!(escape("\n\n"), "\\n\\n");
    assert_eq!(escape("é\tü"), "é\tü");
}

#[test]
fn unescape_reads_what_escape_wrote() {
    assert_eq!(unescape(""), Some(String::new()));
    assert_eq!(unescape("\\n"), Some("\n".to_string()));
    assert_eq!(unescape("\\\\"), Some("\\".to_string()));
    assert_eq!(unescape("a\\nb\\\\c"), Some("a\nb\\c".to_string()));
    assert_eq!(unescape("\\\\n"), Some("\\n".to_string()));
}

#[test]
fn unescape_refuses_a_stray_backslash() {
    assert_eq!(unescape("\\"), None);
    assert_eq!(unescape("ab\\"), None);
    assert_eq!(unescape("a\\tb"), None);
    assert_eq!(unescape("\\\\\\"), None);
}

#[test]
fn split_lines_cuts_at_every_line_feed() {
    assert_eq!(split_lines(""), vec![String::new()]);
    assert_eq!(split_lines("abc"), vec!["abc".to_string()]);
    assert_eq!(split_lines("a\nb"), vec!["a".to_string(), "b".to_string()]);
    assert_eq!(split_lines("\n"), vec![String::new(), String::new()]);
    assert_eq!(
        split_lines("a\n\nb\n"),
        vec!["a".to_string(), String::new(), "b".to_string(), String::new()]
    );
}

#[test]
fn join_escaped_puts_a_line_feed_between_fields() {
    assert_eq!(join_escaped(&vec![]), "");
    assert_eq!(join_escaped(&vec!["one".to_string()]), "one");
    assert_eq!(join_escaped(&vec!["one".to_string(), "t\nwo".to_string()]), "one\nt\\nwo");
    assert_eq!(join_escaped(&vec![String::new(), String::new()]), "\n");
}

#[test]
fn method_name_is_the_field_of_the_first_line() {
    assert_eq!(method_name("method_a\n&self\ni32"), "method_a");
    assert_eq!(method_name("garbage"), "garbage");
    assert_eq!(method_name(""), "");
    assert_eq!(method_name("\nrest"), "");
    assert_eq!(method_name("odd\\nname\nthis"), "odd\nname");
    assert_eq!(method_name("stray\\\nthis"), "stray\\");
}

#[test]
fn decode_reads_the_fields_in_order() {
    let sig = decode_signature("method_c\n&self\na\nbool\ni64");
    assert_eq!(
        sig,
        Some(signature("method_c", Receiver::Ref, vec![param("a", "bool")], Some("i64")))
    );
}

#[test]
fn decode_takes_a_field_left_over_as_the_return_type() {
    assert_eq!(decode_signature("f\nself"), Some(signature("f", Receiver::Value, vec![], None)));
    assert_eq!(
        decode_signature("f\nself\nu8"),
        Some(signature("f", Receiver::Value, vec![], Some("u8")))
    );
    assert_eq!(
        decode_signature("f\nself\nx\nu8"),
        Some(signature("f", Receiver::Value, vec![param("x", "u8")], None))
    );
    assert_eq!(
        decode_signature("f\n&mut self\nx\nu8\n"),
        Some(signature("f", Receiver::RefMut, vec![param("x", "u8")], Some("")))
    );
}

#[test]
fn decode_refuses_what_is_no_transport_form() {
    assert_eq!(decode_signature(""), None);
    assert_eq!(decode_signature("method_a"), None);
    assert_eq!(decode_signature("method_a\nthis"), None);
    assert_eq!(decode_signature("method_a\n& self"), None);
    assert_eq!(decode_signature("fn method_a(&self) -> i32"), None);
    assert_eq!(decode_signature("method_a\n&self\nbroken\\"), None);
    assert_eq!(decode_signature("method\\a\n&self"), None);
}

#[test]
fn decode_gives_back_what_encode_took() {
    let signatures = vec![
        signature("method_a", Receiver::Ref, vec![], Some("i32")),
        signature("method_c", Receiver::Ref, vec![param("a", "bool")], Some("i64")),
        signature("consume", Receiver::Value, vec![], None),
        signature(
            "update",
            Receiver::RefMut,
            vec![param("key", "& str"), param("value", "Vec < (u8 , u8) >")],
            Some("Result < () , String >"),
        ),
        signature("", Receiver::Value, vec![param("", "")], Some("")),
        signature("odd\nname", Receiver::Ref, vec![param("\\", "\n\\n")], Some("\\\\\n")),
        signature("ünïcødé", Receiver::Ref, vec![param("π", "f64")], None),
    ];
    for sig in signatures {
        let text = encode_signature(&sig);
        assert_eq!(decode_signature(&text), Some(sig));
    }
}
