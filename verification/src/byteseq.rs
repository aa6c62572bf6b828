//! Byte-sequence primitives the wire codec is built on: locating a delimiter,
//! appending, and copying a subrange.

use vstd::prelude::*;

verus! {

/// True when `b` occurs nowhere in `s`.
pub open spec fn has_no_byte(s: Seq<u8>, b: u8) -> bool {
    forall|i: int| 0 <= i < s.len() ==> s[i] != b
}

/// Everything of `s` from position `p` on.
pub open spec fn suffix(s: Seq<u8>, p: int) -> Seq<u8> {
    s.subrange(p, s.len() as int)
}

/// Index of the first occurrence of `b` in `s`, if any.
pub open spec fn find_byte(s: Seq<u8>, b: u8) -> Option<int>
    decreases s.len(),
{
    if s.len() == 0 {
        None
    } else if s[0] == b {
        Some(0)
    } else {
        match find_byte(s.drop_first(), b) {
            Some(i) => Some(i + 1),
            None => None,
        }
    }
}

/// `find_byte` returns the first occurrence: it points at `b`, everything
/// before it differs from `b`, and a `None` means `b` is absent.
pub proof fn lemma_find_byte_characterization(s: Seq<u8>, b: u8)
    ensures
        match find_byte(s, b) {
            Some(i) => 0 <= i < s.len() && s[i] == b && (forall|j: int| 0 <= j < i ==> s[j] != b),
            None => has_no_byte(s, b),
        },
    decreases s.len(),
{
    if s.len() > 0 && s[0] != b {
        let t = s.drop_first();
        lemma_find_byte_characterization(t, b);
        match find_byte(t, b) {
            Some(i) => {
                assert(t[i] == s[i + 1]);
                assert forall|j: int| 0 <= j < i + 1 implies s[j] != b by {
                    if j > 0 {
                        assert(s[j] == t[j - 1]);
                    }
                }
            },
            None => {
                assert forall|j: int| 0 <= j < s.len() implies s[j] != b by {
                    if j > 0 {
                        assert(s[j] == t[j - 1]);
                    }
                }
            },
        }
    }
}

/// Conversely, an index with those properties is what `find_byte` returns.
pub proof fn lemma_find_byte_from_characterization(s: Seq<u8>, b: u8, i: int)
    requires
        0 <= i < s.len(),
        s[i] == b,
        forall|j: int| 0 <= j < i ==> s[j] != b,
    ensures
        find_byte(s, b) == Some(i),
    decreases s.len(),
{
    if i > 0 {
        lemma_find_byte_from_characterization(s.drop_first(), b, i - 1);
    }
}

/// In `head + [b] + tail` with `b` absent from `head`, the first `b` sits
/// right after `head`.
pub proof fn lemma_find_byte_concat(head: Seq<u8>, tail: Seq<u8>, b: u8)
    requires
        has_no_byte(head, b),
    ensures
        find_byte(head + seq![b] + tail, b) == Some(head.len() as int),
        (head + seq![b] + tail).subrange(0, head.len() as int) == head,
        (head + seq![b] + tail).subrange(
            head.len() + 1 as int,
            (head + seq![b] + tail).len() as int,
        ) == tail,
{
    let s = head + seq![b] + tail;
    assert(s[head.len() as int] == b);
    lemma_find_byte_from_characterization(s, b, head.len() as int);
    assert(s.subrange(0, head.len() as int) =~= head);
    assert(s.subrange(head.len() + 1 as int, s.len() as int) =~= tail);
}

/// When `b` is absent altogether, `find_byte` reports so.
pub proof fn lemma_find_byte_absent(s: Seq<u8>, b: u8)
    requires
        has_no_byte(s, b),
    ensures
        find_byte(s, b) is None,
{
    lemma_find_byte_characterization(s, b);
    if find_byte(s, b) is Some {
        let i = find_byte(s, b)->Some_0;
        assert(s[i] != b);
    }
}

/// First occurrence of `b` in `s`, as executable code.
pub fn find_byte_in(s: &Vec<u8>, b: u8) -> (r: Option<usize>)
    ensures
        match r {
            Some(i) => find_byte(s@, b) == Some(i as int),
            None => find_byte(s@, b) is None,
        },
{
    let mut i: usize = 0;
    while i < s.len()
        invariant
            0 <= i <= s@.len(),
            forall|j: int| 0 <= j < i ==> s@[j] != b,
        decreases s@.len() - i,
    {
        if s[i] == b {
            proof {
                lemma_find_byte_from_characterization(s@, b, i as int);
            }
            return Some(i);
        }
        i += 1;
    }
    proof {
        lemma_find_byte_absent(s@, b);
    }
    None
}

/// Appends all of `src` to `dst`.
pub fn append_bytes(dst: &mut Vec<u8>, src: &Vec<u8>)
    ensures
        final(dst)@ == old(dst)@ + src@,
{
    let ghost orig = dst@;
    let mut i: usize = 0;
    while i < src.len()
        invariant
            0 <= i <= src@.len(),
            dst@ == orig + src@.subrange(0, i as int),
        decreases src@.len() - i,
    {
        dst.push(src[i]);
        i += 1;
        proof {
            assert(orig + src@.subrange(0, i as int) =~= (orig + src@.subrange(
                0,
                i as int - 1,
            )).push(src@[i as int - 1]));
        }
    }
    proof {
        assert(orig + src@.subrange(0, src@.len() as int) =~= orig + src@);
    }
}

/// Copy of `s[from..to]` as a fresh vector.
pub fn bytes_range(s: &Vec<u8>, from: usize, to: usize) -> (r: Vec<u8>)
    requires
        from <= to <= s@.len(),
    ensures
        r@ == s@.subrange(from as int, to as int),
{
    let mut out: Vec<u8> = Vec::new();
    let mut i: usize = from;
    while i < to
        invariant
            from <= i <= to <= s@.len(),
            out@ == s@.subrange(from as int, i as int),
        decreases to - i,
    {
        out.push(s[i]);
        i += 1;
        proof {
            assert(s@.subrange(from as int, i as int) =~= s@.subrange(
                from as int,
                i as int - 1,
            ).push(s@[i as int - 1]));
        }
    }
    out
}

} // verus!
