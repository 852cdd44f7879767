//! Which answers a copy request selects, and the text it puts on the clipboard.
use vstd::prelude::*;

use crate::text::{chars_of, join, join_chars, string_of, views};
use crate::types::Interaction;

verus! {

/// The answers of a list of interactions, in order.
pub open spec fn responses(v: Seq<Interaction>) -> Seq<Seq<char>> {
    v.map_values(|i: Interaction| i.response@)
}

/// How many of `len` interactions a request for `num` selects: at least one
/// (a count of zero or less asks for the latest), at most all of them.
pub open spec fn copy_len(len: nat, num: int) -> nat {
    if len == 0 {
        0
    } else if num <= 1 {
        1
    } else if num >= len {
        len
    } else {
        num as nat
    }
}

/// The text that a request for `num` interactions copies: the answers of the
/// last `copy_len` interactions, oldest first, one per line.
pub open spec fn copy_text(v: Seq<Interaction>, num: int) -> Seq<char> {
    let r = responses(v);
    join(r.skip(r.len() - copy_len(r.len(), num)), seq!['\n'])
}

/// How many of `len` interactions a request for `num_to_copy` selects.
pub fn copy_count(len: usize, num_to_copy: i32) -> (k: usize)
    ensures
        k == copy_len(len as nat, num_to_copy as int),
{
    if len == 0 {
        0
    } else if num_to_copy <= 1 {
        1
    } else if num_to_copy as usize >= len {
        len
    } else {
        num_to_copy as usize
    }
}

/// The text to put on the clipboard for a request to copy the last
/// `num_to_copy` interactions; empty where there are none.
pub fn clipboard_text(interactions: &[Interaction], num_to_copy: i32) -> (res: String)
    ensures
        res@ == copy_text(interactions@, num_to_copy as int),
{
    let len = interactions.len();
    let k = copy_count(len, num_to_copy);
    let start = len - k;
    let ghost r = responses(interactions@);
    let mut parts: Vec<Vec<char>> = Vec::new();
    let mut i = start;
    while i < len
        invariant
            len == interactions@.len(),
            r == responses(interactions@),
            start <= i <= len,
            views(parts@) == r.subrange(start as int, i as int),
        decreases len - i,
    {
        let ghost before = views(parts@);
        parts.push(chars_of(interactions[i].response.as_str()));
        assert(views(parts@) == before.push(r[i as int]));
        assert(r.subrange(start as int, i + 1) == r.subrange(start as int, i as int).push(r[i as int]));
        i = i + 1;
    }
    assert(r.skip(start as int) == r.subrange(start as int, len as int));
    let sep: Vec<char> = vec!['\n'];
    assert(sep@ == seq!['\n']);
    string_of(&join_chars(&parts, &sep))
}

/// A request for one interaction, or for none or fewer, copies exactly the
/// latest answer.
pub proof fn law_copy_latest(v: Seq<Interaction>, num: int)
    requires
        v.len() > 0,
        num <= 1,
    ensures
        copy_text(v, num) == v.last().response@,
{
    let r = responses(v);
    assert(r.skip(r.len() - 1) == seq![r.last()]);
}

/// A request for at least as many interactions as there are copies all of
/// their answers, one per line.
pub proof fn law_copy_all(v: Seq<Interaction>, num: int)
    requires
        num >= v.len(),
        num >= 1,
    ensures
        copy_text(v, num) == join(responses(v), seq!['\n']),
{
    let r = responses(v);
    assert(r.skip(0) == r);
}

/// A request never selects more interactions than there are, and selects at
/// least one where there is one.
pub proof fn law_copy_len_bounds(len: nat, num: int)
    ensures
        copy_len(len, num) <= len,
        len > 0 ==> copy_len(len, num) >= 1,
        len > 0 && 1 <= num <= len ==> copy_len(len, num) == num,
{
}

/// For any request, the copied text is the answers of exactly the last
/// `copy_len` interactions, one per line; a request for `num` between 1 and
/// the number of interactions copies exactly the last `num` answers.
pub proof fn law_copy_last_answers(v: Seq<Interaction>, num: int)
    ensures
        copy_text(v, num) == join(
            responses(v).subrange(v.len() - copy_len(v.len(), num), v.len() as int),
            seq!['\n'],
        ),
        1 <= num <= v.len() ==> copy_text(v, num) == join(
            responses(v).subrange(v.len() - num, v.len() as int),
            seq!['\n'],
        ),
        1 <= num <= v.len() ==> responses(v).subrange(v.len() - num, v.len() as int).len() == num,
{
    let r = responses(v);
    let k = copy_len(v.len(), num);
    assert(r.skip(r.len() - k) == r.subrange(v.len() - k, v.len() as int));
}

} // verus!
