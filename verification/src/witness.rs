//! The record of two leaf updates that a proving tool reads.

use vstd::prelude::*;
use vstd::string::*;

verus! {

/// What `{:?}` writes for a string whose text is `text`: the text between
/// double quotes, with the characters that Rust escapes written as escapes.
pub uninterp spec fn debug_quoted(text: Seq<char>) -> Seq<char>;

/// The texts of `items`, each as `{:?}` writes it.
pub open spec fn all_quoted(items: Seq<Seq<char>>) -> Seq<Seq<char>> {
    Seq::new(items.len(), |i: int| debug_quoted(items[i]))
}

/// `items` one after the other with `, ` between each two.
pub open spec fn comma_separated(items: Seq<Seq<char>>) -> Seq<char>
    decreases items.len(),
{
    if items.len() == 0 {
        Seq::empty()
    } else if items.len() == 1 {
        items[0]
    } else {
        comma_separated(items.drop_last()) + ", "@ + items.last()
    }
}

/// The line `key = "value"`.
pub open spec fn scalar_line(key: Seq<char>, value: Seq<char>) -> Seq<char> {
    key + " = \""@ + value + "\"\n"@
}

/// The line `key = [item, item, ...]`, the items written as they are given.
pub open spec fn list_line(key: Seq<char>, items: Seq<Seq<char>>) -> Seq<char> {
    key + " = ["@ + comma_separated(items) + "]\n"@
}

/// `std`'s `{:?}` for a `String`. The contract gives its result a name and
/// claims only that the result is a function of the string's text.
#[verifier::external_body]
fn debug_string(text: &String) -> (out: String)
    ensures
        out@ == debug_quoted(text@),
{
    format!("{:?}", text)
}

/// Each of `items` as `{:?}` writes it.
pub fn quote_all(items: &Vec<String>) -> (out: Vec<String>)
    ensures
        out.deep_view() == all_quoted(items.deep_view()),
{
    let mut out: Vec<String> = Vec::new();
    let mut i: usize = 0;
    while i < items.len()
        invariant
            i <= items.len(),
            out.len() == i,
            forall|j: int| 0 <= j < i ==> out[j]@ == debug_quoted(items[j]@),
        decreases items.len() - i,
    {
        out.push(debug_string(&items[i]));
        i += 1;
    }
    assert(out.deep_view() =~= all_quoted(items.deep_view()));
    out
}

/// Appends the line `key = "value"` to `text`.
pub fn push_scalar_line(text: &mut String, key: &str, value: &str)
    ensures
        final(text)@ == old(text)@ + scalar_line(key@, value@),
{
    text.append(key);
    text.append(" = \"");
    text.append(value);
    text.append("\"\n");
    assert(text@ =~= old(text)@ + scalar_line(key@, value@));
}

/// Appends the line `key = [item, item, ...]` to `text`; the items are
/// written as they are given.
pub fn push_list_line(text: &mut String, key: &str, items: &Vec<String>)
    ensures
        final(text)@ == old(text)@ + list_line(key@, items.deep_view()),
{
    let ghost shown = items.deep_view();
    text.append(key);
    text.append(" = [");
    let ghost head = text@;
    let mut i: usize = 0;
    while i < items.len()
        invariant
            i <= items.len(),
            shown == items.deep_view(),
            text@ == head + comma_separated(shown.take(i as int)),
        decreases items.len() - i,
    {
        let ghost before = shown.take(i as int);
        let ghost now = shown.take(i + 1);
        assert(now.drop_last() =~= before);
        assert(now.last() == items[i as int]@);
        if i > 0 {
            text.append(", ");
        }
        text.append(items[i].as_str());
        assert(text@ =~= head + comma_separated(now));
        i += 1;
    }
    assert(shown.take(items.len() as int) =~= shown);
    text.append("]\n");
    assert(text@ =~= old(text)@ + list_line(key@, shown));
}

/// The values that the proving tool is given for two leaf updates: each
/// leaf's index, its value and authentication path before and after, and the
/// roots before, between and after the two.
#[derive(Debug)]
pub struct Witness {
    pub intermediate_root: String,
    pub leaf_index1: String,
    pub leaf_index2: String,
    pub new_leaf1: String,
    pub new_leaf2: String,
    pub new_path1: Vec<String>,
    pub new_path2: Vec<String>,
    pub new_root: String,
    pub old_leaf1: String,
    pub old_leaf2: String,
    pub old_path1: Vec<String>,
    pub old_path2: Vec<String>,
    pub old_root: String,
}

impl Witness {
    pub fn new(
        intermediate_root: String,
        leaf_index1: String,
        leaf_index2: String,
        new_leaf1: String,
        new_leaf2: String,
        new_path1: Vec<String>,
        new_path2: Vec<String>,
        new_root: String,
        old_leaf1: String,
        old_leaf2: String,
        old_path1: Vec<String>,
        old_path2: Vec<String>,
        old_root: String,
    ) -> (out: Self)
        ensures
            out == (Witness {
                intermediate_root,
                leaf_index1,
                leaf_index2,
                new_leaf1,
                new_leaf2,
                new_path1,
                new_path2,
                new_root,
                old_leaf1,
                old_leaf2,
                old_path1,
                old_path2,
                old_root,
            }),
    {
        Self {
            intermediate_root,
            leaf_index1,
            leaf_index2,
            new_leaf1,
            new_leaf2,
            new_path1,
            new_path2,
            new_root,
            old_leaf1,
            old_leaf2,
            old_path1,
            old_path2,
            old_root,
        }
    }

    /// The record as text: an empty line, then one line for each field in
    /// the order of the fields. A scalar is written between double quotes as
    /// it is; a path as a list of its entries, each as `{:?}` writes it.
    pub open spec fn toml_text(&self) -> Seq<char> {
        "\n"@ + scalar_line("intermediate_root"@, self.intermediate_root@) + scalar_line(
            "leaf_index1"@,
            self.leaf_index1@,
        ) + scalar_line("leaf_index2"@, self.leaf_index2@) + scalar_line(
            "new_leaf1"@,
            self.new_leaf1@,
        ) + scalar_line("new_leaf2"@, self.new_leaf2@) + list_line(
            "new_path1"@,
            all_quoted(self.new_path1.deep_view()),
        ) + list_line("new_path2"@, all_quoted(self.new_path2.deep_view())) + scalar_line(
            "new_root"@,
            self.new_root@,
        ) + scalar_line("old_leaf1"@, self.old_leaf1@) + scalar_line(
            "old_leaf2"@,
            self.old_leaf2@,
        ) + list_line("old_path1"@, all_quoted(self.old_path1.deep_view())) + list_line(
            "old_path2"@,
            all_quoted(self.old_path2.deep_view()),
        ) + scalar_line("old_root"@, self.old_root@)
    }

    pub fn to_toml_string(&self) -> (out: String)
        ensures
            out@ == self.toml_text(),
    {
        let mut text = String::new();
        text.append("\n");
        push_scalar_line(&mut text, "intermediate_root", self.intermediate_root.as_str());
        push_scalar_line(&mut text, "leaf_index1", self.leaf_index1.as_str());
        push_scalar_line(&mut text, "leaf_index2", self.leaf_index2.as_str());
        push_scalar_line(&mut text, "new_leaf1", self.new_leaf1.as_str());
        push_scalar_line(&mut text, "new_leaf2", self.new_leaf2.as_str());
        push_list_line(&mut text, "new_path1", &quote_all(&self.new_path1));
        push_list_line(&mut text, "new_path2", &quote_all(&self.new_path2));
        push_scalar_line(&mut text, "new_root", self.new_root.as_str());
        push_scalar_line(&mut text, "old_leaf1", self.old_leaf1.as_str());
        push_scalar_line(&mut text, "old_leaf2", self.old_leaf2.as_str());
        push_list_line(&mut text, "old_path1", &quote_all(&self.old_path1));
        push_list_line(&mut text, "old_path2", &quote_all(&self.old_path2));
        push_scalar_line(&mut text, "old_root", self.old_root.as_str());
        assert(text@ =~= self.toml_text());
        text
    }
}

} // verus!
