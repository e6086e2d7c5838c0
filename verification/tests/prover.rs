use merkle_tree::prover::{
    first_line, hash_from_output, hash_result, pair_input, prover_toml, single_input,
};

#[test]
fn input_of_one_value() {
    assert_eq!(single_input("7"), "\ninput1 = \"7\"");
    assert_eq!(single_input(""), "\ninput1 = \"\"");
}

#[test]
fn input_of_two_values() {
    assert_eq!(pair_input("0x1", "0x2"), "\ninput1 = \"0x1\"\ninput2 = \"0x2\"");
}

#[test]
fn input_of_two_values_as_lines() {
    assert_eq!(prover_toml("12", "34"), "input1 = \"12\"\ninput2 = \"34\"\n");
}

#[test]
fn hash_is_the_first_line_with_the_marker() {
    assert_eq!(hash_from_output("0x1f"), Ok("0x1f".to_string()));
    assert_eq!(hash_from_output("0x1f\n"), Ok("0x1f".to_string()));
    assert_eq!(
        hash_from_output("[pedersen] Circuit witness successfully solved\n  0x2a \r\n0x2b\n"),
        Ok("0x2a".to_string())
    );
    assert_eq!(
        hash_from_output("note\n\n\tField(0x03)\u{a0}\nmore"),
        Ok("Field(0x03)".to_string())
    );
    assert_eq!(hash_from_output("x0\n0\nx\n00x"), Ok("00x".to_string()));
}

#[test]
fn hash_missing_from_output() {
    let missing = Err("Hash output not found".to_string());
    assert_eq!(hash_from_output(""), missing);
    assert_eq!(hash_from_output("\n"), missing);
    assert_eq!(hash_from_output("no hash here\nnor here\n"), missing);
    assert_eq!(hash_from_output("0\nx"), missing);
    assert_eq!(hash_from_output("0X12"), missing);
}

#[test]
fn hash_agrees_with_lines_contains_and_trim() {
    let outputs = [
        "0x12\n",
        "  0x12  ",
        "a\r\nb 0x7 \r\nc",
        "\u{2003}0xabc\u{3000}\n",
        "first\nsecond\n",
        "",
        "0x",
        "\r0x\r",
    ];
    for output in outputs {
        let mut expected: Result<String, String> = Err("Hash output not found".to_string());
        for line in output.lines() {
            if line.contains("0x") {
                expected = Ok(line.trim().to_string());
                break;
            }
        }
        assert_eq!(hash_from_output(output), expected);
    }
}

#[test]
fn failed_run_reports_the_complaint() {
    assert_eq!(
        hash_result(false, "0x12\n", "no such file"),
        Err("nargo command failed with error: no such file".to_string())
    );
    assert_eq!(hash_result(true, "0x12\n", "warning"), Ok("0x12".to_string()));
    assert_eq!(hash_result(true, "nothing", ""), Err("Hash output not found".to_string()));
}

#[test]
fn first_line_without_its_end() {
    assert_eq!(first_line(""), None);
    assert_eq!(first_line("0x12"), Some("0x12".to_string()));
    assert_eq!(first_line("0x12\nrest"), Some("0x12".to_string()));
    assert_eq!(first_line("0x12\r\nrest"), Some("0x12".to_string()));
    assert_eq!(first_line("0x12\r"), Some("0x12\r".to_string()));
    assert_eq!(first_line("\nrest"), Some(String::new()));
    assert_eq!(first_line("\r\nrest"), Some(String::new()));
    assert_eq!(first_line("a\r\r\nrest"), Some("a\r".to_string()));
}
