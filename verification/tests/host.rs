use da_core::host::{local_port_name, parse_connections};

#[test]
fn connection_lists() {
    assert_eq!(
        parse_connections("a:out1->b:in1,system:capture_1->x:in2"),
        vec![
            ("a:out1".to_string(), "b:in1".to_string()),
            ("system:capture_1".to_string(), "x:in2".to_string()),
        ]
    );
    assert_eq!(parse_connections("a->b->c"), vec![("a".to_string(), "b".to_string())]);
    assert_eq!(parse_connections("->"), vec![("".to_string(), "".to_string())]);
}

#[test]
fn registered_port_names() {
    assert_eq!(local_port_name("in", 0), "in1");
    assert_eq!(local_port_name("midi_out", 9), "midi_out10");
}

#[test]
fn connections_read_back() {
    let pairs = vec![
        ("a-:out1".to_string(), ">b:in1".to_string()),
        ("".to_string(), "x y".to_string()),
        ("system:capture_1".to_string(), "P:in2".to_string()),
    ];
    let text = pairs.iter().map(|(a, b)| format!("{}->{}", a, b)).collect::<Vec<_>>().join(",");
    assert_eq!(text, "a-:out1->>b:in1,->x y,system:capture_1->P:in2");
    assert_eq!(parse_connections(&text), pairs);
}
