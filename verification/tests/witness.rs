use merkle_tree::witness::{push_list_line, push_scalar_line, quote_all};
use merkle_tree::Witness;

fn strings(names: &[&str]) -> Vec<String> {
    names.iter().map(|s| s.to_string()).collect()
}

#[test]
fn witness_keeps_its_fields() {
    let witness = Witness::new(
        "r1".to_string(),
        "0x2".to_string(),
        "0xa".to_string(),
        "n1".to_string(),
        "n2".to_string(),
        strings(&["p1"]),
        strings(&["p2"]),
        "r2".to_string(),
        "o1".to_string(),
        "o2".to_string(),
        strings(&["q1"]),
        strings(&["q2"]),
        "r0".to_string(),
    );
    assert_eq!(witness.intermediate_root, "r1");
    assert_eq!(witness.leaf_index1, "0x2");
    assert_eq!(witness.leaf_index2, "0xa");
    assert_eq!(witness.new_leaf1, "n1");
    assert_eq!(witness.new_leaf2, "n2");
    assert_eq!(witness.new_path1, strings(&["p1"]));
    assert_eq!(witness.new_path2, strings(&["p2"]));
    assert_eq!(witness.new_root, "r2");
    assert_eq!(witness.old_leaf1, "o1");
    assert_eq!(witness.old_leaf2, "o2");
    assert_eq!(witness.old_path1, strings(&["q1"]));
    assert_eq!(witness.old_path2, strings(&["q2"]));
    assert_eq!(witness.old_root, "r0");
}

#[test]
fn witness_as_text() {
    let witness = Witness::new(
        "0x11".to_string(),
        "0x2".to_string(),
        "0xa".to_string(),
        "0x21".to_string(),
        "0x22".to_string(),
        strings(&["0x31", "0x32", "0x33"]),
        strings(&["0x41"]),
        "0x12".to_string(),
        "0x51".to_string(),
        "0x52".to_string(),
        strings(&["0x61", "0x62"]),
        strings(&[]),
        "0x10".to_string(),
    );
    let expected = "\n\
intermediate_root = \"0x11\"\n\
leaf_index1 = \"0x2\"\n\
leaf_index2 = \"0xa\"\n\
new_leaf1 = \"0x21\"\n\
new_leaf2 = \"0x22\"\n\
new_path1 = [\"0x31\", \"0x32\", \"0x33\"]\n\
new_path2 = [\"0x41\"]\n\
new_root = \"0x12\"\n\
old_leaf1 = \"0x51\"\n\
old_leaf2 = \"0x52\"\n\
old_path1 = [\"0x61\", \"0x62\"]\n\
old_path2 = []\n\
old_root = \"0x10\"\n";
    assert_eq!(witness.to_toml_string(), expected);
}

#[test]
fn path_entries_are_escaped_and_scalars_are_not() {
    let witness = Witness::new(
        "a\"b".to_string(),
        String::new(),
        String::new(),
        String::new(),
        String::new(),
        strings(&["a\"b", "c\\d", "e\nf"]),
        Vec::new(),
        String::new(),
        String::new(),
        String::new(),
        Vec::new(),
        Vec::new(),
        String::new(),
    );
    let text = witness.to_toml_string();
    assert!(text.starts_with("\nintermediate_root = \"a\"b\"\n"));
    assert!(text.contains("new_path1 = [\"a\\\"b\", \"c\\\\d\", \"e\\nf\"]\n"));
}

#[test]
fn quoting_follows_debug() {
    let items = strings(&["plain", "", "tab\there", "quote'\"", "\u{7f}"]);
    let expected: Vec<String> = items.iter().map(|s| format!("{:?}", s)).collect();
    assert_eq!(quote_all(&items), expected);
    assert_eq!(quote_all(&strings(&["0x1f"])), strings(&["\"0x1f\""]));
}

#[test]
fn lines_are_appended() {
    let mut text = String::from("head\n");
    push_scalar_line(&mut text, "key", "value");
    assert_eq!(text, "head\nkey = \"value\"\n");
    push_list_line(&mut text, "list", &strings(&["1", "2", "3"]));
    assert_eq!(text, "head\nkey = \"value\"\nlist = [1, 2, 3]\n");
    push_list_line(&mut text, "none", &Vec::new());
    assert_eq!(text, "head\nkey = \"value\"\nlist = [1, 2, 3]\nnone = []\n");
}

#[test]
fn witness_text_is_what_formatting_the_fields_gives() {
    let odd = strings(&["0x1", "", "a b", "quote\"", "back\\slash", "line\nfeed", "\u{301}x", "\u{1f600}"]);
    let witness = Witness::new(
        "r\"1".to_string(),
        "0x2".to_string(),
        "0xa".to_string(),
        "n 1".to_string(),
        "n\n2".to_string(),
        odd.clone(),
        strings(&["only"]),
        "r2".to_string(),
        "o1".to_string(),
        "o2".to_string(),
        Vec::new(),
        odd.clone(),
        "r0".to_string(),
    );
    let expected = format!(
        "\nintermediate_root = \"{}\"\nleaf_index1 = \"{}\"\nleaf_index2 = \"{}\"\nnew_leaf1 = \"{}\"\nnew_leaf2 = \"{}\"\nnew_path1 = {:?}\nnew_path2 = {:?}\nnew_root = \"{}\"\nold_leaf1 = \"{}\"\nold_leaf2 = \"{}\"\nold_path1 = {:?}\nold_path2 = {:?}\nold_root = \"{}\"\n",
        witness.intermediate_root,
        witness.leaf_index1,
        witness.leaf_index2,
        witness.new_leaf1,
        witness.new_leaf2,
        witness.new_path1,
        witness.new_path2,
        witness.new_root,
        witness.old_leaf1,
        witness.old_leaf2,
        witness.old_path1,
        witness.old_path2,
        witness.old_root
    );
    assert_eq!(witness.to_toml_string(), expected);
}
