//! Windows of a byte sequence.
//!
//! The lemmas about reading back what was written speak of an encoding that
//! lies somewhere in a buffer. This module says what that means and how such
//! a window is cut into its parts.

use vstd::prelude::*;

verus! {

/// Whether `part` lies in `s` at `pos`.
pub open spec fn lies_at(s: Seq<u8>, pos: int, part: Seq<u8>) -> bool {
    &&& 0 <= pos
    &&& pos + part.len() <= s.len()
    &&& s.subrange(pos, pos + part.len()) == part
}

/// A sequence lies in itself, at its start.
pub proof fn lemma_lies_at_start(s: Seq<u8>)
    ensures
        lies_at(s, 0, s),
{
    assert(s.subrange(0, s.len() as int) == s);
}

/// Where two parts lie in a buffer one behind the other, each of them lies
/// there.
pub proof fn lemma_lies_at_split(s: Seq<u8>, pos: int, front: Seq<u8>, back: Seq<u8>)
    requires
        lies_at(s, pos, front + back),
    ensures
        lies_at(s, pos, front),
        lies_at(s, pos + front.len(), back),
{
    let whole = front + back;
    assert(s.subrange(pos, pos + front.len()) == front) by {
        assert forall|i: int| 0 <= i < front.len() implies s.subrange(pos, pos + front.len())[i]
            == front[i] by {
            assert(s.subrange(pos, pos + whole.len())[i] == whole[i]);
        }
    }
    assert(s.subrange(pos + front.len(), pos + front.len() + back.len()) == back) by {
        assert forall|i: int| 0 <= i < back.len() implies s.subrange(
            pos + front.len(),
            pos + front.len() + back.len(),
        )[i] == back[i] by {
            assert(s.subrange(pos, pos + whole.len())[front.len() + i] == whole[front.len() + i]);
        }
    }
}

/// What lies in a buffer at a place is what the buffer holds there, octet
/// by octet.
pub proof fn lemma_lies_at_index(s: Seq<u8>, pos: int, part: Seq<u8>, i: int)
    requires
        lies_at(s, pos, part),
        0 <= i < part.len(),
    ensures
        s[pos + i] == part[i],
{
    assert(s.subrange(pos, pos + part.len())[i] == part[i]);
}

} // verus!
