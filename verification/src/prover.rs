//! What is written for the hashing program, and what is read from it.
//!
//! The program is given its inputs as lines `inputN = "value"` and prints the
//! hash as a line that holds `0x`. Writing the file and running the program
//! is left to the caller; the text on both sides is made and read here.

use vstd::prelude::*;
use vstd::string::*;
use crate::text::{
    chars_of, contains_marker, has_marker, line_end, line_len, trim_bounds, trimmed,
};

verus! {

/// The input of one value: an empty line, then `input1 = "value"` without a
/// line end.
pub open spec fn single_input_text(value: Seq<char>) -> Seq<char> {
    "\ninput1 = \""@ + value + "\""@
}

/// The input of two values: an empty line, then `input1 = "first"` and
/// `input2 = "second"`, the second without a line end.
pub open spec fn pair_input_text(first: Seq<char>, second: Seq<char>) -> Seq<char> {
    "\ninput1 = \""@ + first + "\"\ninput2 = \""@ + second + "\""@
}

/// The input of two values as two full lines: `input1 = "first"` and
/// `input2 = "second"`.
pub open spec fn pair_input_lines(first: Seq<char>, second: Seq<char>) -> Seq<char> {
    "input1 = \""@ + first + "\"\ninput2 = \""@ + second + "\"\n"@
}

/// The hash in the program's output: the first line that holds `0x`, without
/// the blanks at its ends; `None` where no line holds it.
pub open spec fn hash_in(output: Seq<char>) -> Option<Seq<char>>
    decreases output.len(),
{
    let n = line_len(output) as int;
    let line = output.take(n);
    if has_marker(line) {
        Some(trimmed(line))
    } else if n >= output.len() {
        None
    } else {
        hash_in(output.skip(n + 1))
    }
}

/// The first line of the program's output, without its line end: the text up
/// to the first line feed, less a carriage return before that line feed;
/// `None` where there is no output at all.
pub open spec fn first_line_of(output: Seq<char>) -> Option<Seq<char>> {
    let n = line_len(output) as int;
    if output.len() == 0 {
        None
    } else if 0 < n < output.len() && output[n - 1] == '\r' {
        Some(output.take(n - 1))
    } else {
        Some(output.take(n))
    }
}

/// What a run of the program comes to: on failure the program's complaint,
/// on success the hash in its output, or the complaint that there is none.
pub open spec fn run_outcome(success: bool, stdout: Seq<char>, stderr: Seq<char>) -> Result<
    Seq<char>,
    Seq<char>,
> {
    if !success {
        Err("nargo command failed with error: "@ + stderr)
    } else {
        match hash_in(stdout) {
            Some(hash) => Ok(hash),
            None => Err("Hash output not found"@),
        }
    }
}

/// The text and the error text of `result`.
pub open spec fn result_view(result: Result<String, String>) -> Result<Seq<char>, Seq<char>> {
    match result {
        Ok(text) => Ok(text@),
        Err(text) => Err(text@),
    }
}

pub fn single_input(field_element1: &str) -> (out: String)
    ensures
        out@ == single_input_text(field_element1@),
{
    let mut text = "\ninput1 = \"".to_owned();
    text.append(field_element1);
    text.append("\"");
    text
}

pub fn pair_input(field_element1: &str, field_element2: &str) -> (out: String)
    ensures
        out@ == pair_input_text(field_element1@, field_element2@),
{
    let mut text = "\ninput1 = \"".to_owned();
    text.append(field_element1);
    text.append("\"\ninput2 = \"");
    text.append(field_element2);
    text.append("\"");
    text
}

pub fn prover_toml(input1: &str, input2: &str) -> (out: String)
    ensures
        out@ == pair_input_lines(input1@, input2@),
{
    let mut text = "input1 = \"".to_owned();
    text.append(input1);
    text.append("\"\ninput2 = \"");
    text.append(input2);
    text.append("\"\n");
    text
}

pub fn hash_from_output(stdout: &str) -> (out: Result<String, String>)
    ensures
        result_view(out) == run_outcome(true, stdout@, Seq::empty()),
{
    let chars = chars_of(stdout);
    let mut start: usize = 0;
    assert(chars@.skip(0) =~= chars@);
    loop
        invariant
            chars@ == stdout@,
            start <= chars.len(),
            hash_in(chars@) == hash_in(chars@.skip(start as int)),
        decreases chars.len() - start,
    {
        let ghost rest = chars@.skip(start as int);
        let end = line_end(&chars, start);
        assert(rest.take(end - start) =~= chars@.subrange(start as int, end as int));
        if contains_marker(&chars, start, end) {
            let (a, b) = trim_bounds(&chars, start, end);
            return Ok(stdout.substring_char(a, b).to_owned());
        }
        if end >= chars.len() {
            return Err("Hash output not found".to_owned());
        }
        assert(rest.skip(end - start + 1) =~= chars@.skip(end + 1));
        start = end + 1;
    }
}

pub fn first_line(output: &str) -> (out: Option<String>)
    ensures
        out is Some <==> first_line_of(output@) is Some,
        out matches Some(line) ==> Some(line@) == first_line_of(output@),
{
    let chars = chars_of(output);
    if chars.len() == 0 {
        return None;
    }
    let end = line_end(&chars, 0);
    assert(chars@.skip(0) =~= chars@);
    if 0 < end && end < chars.len() && chars[end - 1] == '\r' {
        assert(output@.take(end - 1) =~= output@.subrange(0, end - 1));
        Some(output.substring_char(0, end - 1).to_owned())
    } else {
        assert(output@.take(end as int) =~= output@.subrange(0, end as int));
        Some(output.substring_char(0, end).to_owned())
    }
}

pub fn hash_result(success: bool, stdout: &str, stderr: &str) -> (out: Result<String, String>)
    ensures
        result_view(out) == run_outcome(success, stdout@, stderr@),
{
    if !success {
        let mut complaint = "nargo command failed with error: ".to_owned();
        complaint.append(stderr);
        return Err(complaint);
    }
    hash_from_output(stdout)
}

} // verus!
