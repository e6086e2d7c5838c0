//! Node values in the short form in which a tree is shown.

use vstd::prelude::*;
use vstd::string::*;
use vstd::utf8::{encode_utf8, is_char_boundary};

verus! {

/// The last eight of `bytes`, or all of them where there are no more.
pub open spec fn tail_bytes(bytes: Seq<u8>) -> Seq<u8> {
    if bytes.len() > 8 {
        bytes.subrange(bytes.len() - 8, bytes.len() as int)
    } else {
        bytes
    }
}

/// The last eight bytes of `bytes` are whole characters, and the length of
/// `bytes` is one that a machine can hold.
pub open spec fn can_shorten(bytes: Seq<u8>) -> bool {
    &&& bytes.len() <= usize::MAX
    &&& bytes.len() > 8 ==> is_char_boundary(bytes, bytes.len() - 8)
}

/// The end of `hash`: its last eight bytes, or all of it where it has no
/// more. The cut must not fall inside a character.
pub fn short_form(hash: &str) -> (out: &str)
    requires
        can_shorten(encode_utf8(hash@)),
    ensures
        encode_utf8(out@) == tail_bytes(encode_utf8(hash@)),
{
    let len = hash.len();
    if len > 8 {
        let (_, tail) = hash.split_at(len - 8);
        tail
    } else {
        hash
    }
}

/// Every node of `level` in its short form.
pub fn short_level(level: &Vec<String>) -> (out: Vec<String>)
    requires
        forall|i: int| 0 <= i < level.len() ==> can_shorten(encode_utf8((#[trigger] level[i])@)),
    ensures
        out.len() == level.len(),
        forall|i: int|
            0 <= i < level.len() ==> encode_utf8((#[trigger] out[i])@) == tail_bytes(
                encode_utf8(level[i]@),
            ),
{
    let mut out: Vec<String> = Vec::new();
    let mut i: usize = 0;
    while i < level.len()
        invariant
            i <= level.len(),
            out.len() == i,
            forall|j: int| 0 <= j < level.len() ==> can_shorten(encode_utf8((#[trigger] level[j])@)),
            forall|j: int|
                0 <= j < i ==> encode_utf8((#[trigger] out[j])@) == tail_bytes(
                    encode_utf8(level[j]@),
                ),
        decreases level.len() - i,
    {
        out.push(short_form(level[i].as_str()).to_owned());
        i += 1;
    }
    out
}

} // verus!
