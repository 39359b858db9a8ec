use vstd::prelude::*;
use vstd::utf8::{
    valid_utf8, decode_utf8, is_char_boundary, valid_first_scalar, length_of_first_scalar,
    pop_first_scalar, valid_utf8_split, decode_utf8_split,
};
use crate::locator::DELIMITER;
use crate::partition::{windows_of, window_end};

verus! {

/// Relies on `std::str::from_utf8`: `Ok` exactly for valid UTF-8, with the decoded text;
/// otherwise its error's `valid_up_to`, the largest `n` for which the first `n` bytes
/// are valid UTF-8.
#[verifier::external_body]
fn decode_bytes(bytes: &[u8]) -> (r: Result<String, usize>)
    ensures
        r is Ok <==> valid_utf8(bytes@),
        r matches Ok(s) ==> s@ == decode_utf8(bytes@),
        r matches Err(n) ==> n <= bytes@.len() && valid_utf8(bytes@.subrange(0, n as int))
            && forall|m: int| n < m <= bytes@.len() ==> !valid_utf8(#[trigger] bytes@.subrange(0, m)),
{
    match std::str::from_utf8(bytes) {
        Ok(s) => Ok(s.to_string()),
        Err(e) => Err(e.valid_up_to()),
    }
}

/// The length of the longest prefix of `b` that is valid UTF-8.
pub open spec fn valid_prefix_len(b: Seq<u8>) -> int
    decreases b.len(),
{
    if b.len() == 0 || valid_utf8(b) {
        b.len() as int
    } else {
        valid_prefix_len(b.subrange(0, b.len() - 1))
    }
}

/// The bytes that a window contributes to the text: all of them, except a delimiter that
/// ends the record's last window.
pub open spec fn window_payload(window: Seq<u8>, is_last: bool) -> Seq<u8> {
    if is_last && window.len() > 0 && window.last() == DELIMITER {
        window.drop_last()
    } else {
        window
    }
}

/// One window of reassembly: the carried bytes followed by the window's payload are
/// decoded as far as they are valid UTF-8; the text is emitted and the rest is carried.
pub open spec fn assemble_step(carry: Seq<u8>, window: Seq<u8>, is_last: bool) -> (
    Seq<char>,
    Seq<u8>,
) {
    let buf = carry + window_payload(window, is_last);
    let n = valid_prefix_len(buf);
    (decode_utf8(buf.subrange(0, n)), buf.subrange(n, buf.len() as int))
}

/// The text emitted for the windows `ranges` of `file`, in order, starting from `carry`.
pub open spec fn assemble_run(file: Seq<u8>, ranges: Seq<(u32, u32)>, carry: Seq<u8>) -> Seq<
    char,
>
    decreases ranges.len(),
{
    if ranges.len() == 0 {
        seq![]
    } else {
        let step = assemble_step(
            carry,
            file.subrange(ranges[0].0 as int, ranges[0].1 as int),
            ranges.len() == 1,
        );
        step.0 + assemble_run(file, ranges.drop_first(), step.1)
    }
}

/// A prefix that is valid and maximal among the valid ones has the longest valid length.
proof fn lemma_valid_prefix_len(b: Seq<u8>, n: int)
    requires
        0 <= n <= b.len(),
        valid_utf8(b.subrange(0, n)),
        forall|m: int| n < m <= b.len() ==> !valid_utf8(#[trigger] b.subrange(0, m)),
    ensures
        valid_prefix_len(b) == n,
    decreases b.len(),
{
    if n == b.len() {
        assert(b.subrange(0, n) == b);
    } else {
        assert(b.subrange(0, b.len() as int) == b);
        let c = b.subrange(0, b.len() - 1);
        assert(c.subrange(0, n) == b.subrange(0, n));
        assert forall|m: int| n < m <= c.len() implies !valid_utf8(#[trigger] c.subrange(0, m)) by {
            assert(c.subrange(0, m) == b.subrange(0, m));
        }
        lemma_valid_prefix_len(c, n);
    }
}

/// The end of a valid prefix is a character boundary of any valid sequence it starts.
proof fn lemma_prefix_boundary(a: Seq<u8>, b: Seq<u8>)
    requires
        valid_utf8(a),
        valid_utf8(a + b),
    ensures
        is_char_boundary(a + b, a.len() as int),
    decreases a.len(),
{
    if a.len() > 0 {
        let ab = a + b;
        let k = length_of_first_scalar(a);
        assert(ab[0] == a[0]);
        assert(valid_first_scalar(a));
        assert(k <= a.len());
        assert(forall|i: int| 0 <= i < k ==> ab[i] == a[i]);
        assert(length_of_first_scalar(ab) == k);
        assert(pop_first_scalar(ab) == pop_first_scalar(a) + b);
        lemma_prefix_boundary(pop_first_scalar(a), b);
    }
}

/// A valid UTF-8 sequence that starts with a valid prefix goes on with a valid suffix,
/// and decodes as the two parts do one after the other.
pub proof fn lemma_valid_concat_parts(a: Seq<u8>, b: Seq<u8>)
    requires
        valid_utf8(a),
        valid_utf8(a + b),
    ensures
        valid_utf8(b),
        decode_utf8(a + b) == decode_utf8(a) + decode_utf8(b),
{
    let ab = a + b;
    lemma_prefix_boundary(a, b);
    valid_utf8_split(ab, a.len() as int);
    decode_utf8_split(ab, a.len() as int);
    assert(ab.subrange(0, a.len() as int) == a);
    assert(ab.subrange(a.len() as int, ab.len() as int) == b);
}

/// The longest valid prefix is valid and no longer than the sequence.
proof fn lemma_valid_prefix_facts(b: Seq<u8>)
    ensures
        0 <= valid_prefix_len(b) <= b.len(),
        valid_utf8(b.subrange(0, valid_prefix_len(b))),
    decreases b.len(),
{
    if b.len() == 0 {
        assert(b.subrange(0, 0) == Seq::<u8>::empty());
    } else if valid_utf8(b) {
        assert(b.subrange(0, b.len() as int) == b);
    } else {
        let c = b.subrange(0, b.len() - 1);
        lemma_valid_prefix_facts(c);
        assert(c.subrange(0, valid_prefix_len(c)) == b.subrange(0, valid_prefix_len(c)));
    }
}

/// From window `s` on, starting from `carry`, reassembly emits the decoding of the carry
/// followed by the rest of the record, when that is valid UTF-8.
proof fn lemma_run_from(file: Seq<u8>, s: u32, end: u32, width: u32, carry: Seq<u8>)
    requires
        s <= end <= file.len(),
        width >= 1,
        s < end || carry.len() == 0,
        valid_utf8(carry + window_payload(file.subrange(s as int, end as int), true)),
    ensures
        assemble_run(file, windows_of(s, end, width), carry) == decode_utf8(
            carry + window_payload(file.subrange(s as int, end as int), true),
        ),
    decreases end - s,
{
    let ranges = windows_of(s, end, width);
    let full = carry + window_payload(file.subrange(s as int, end as int), true);
    if s == end {
        assert(file.subrange(s as int, end as int) == Seq::<u8>::empty());
        assert(full == Seq::<u8>::empty());
        assert(decode_utf8(full) == Seq::<char>::empty());
    } else {
        let e1 = window_end(s, end, width);
        assert(ranges[0] == (s, e1));
        assert(ranges.drop_first() == windows_of(e1, end, width));
        if e1 == end {
            assert(ranges.drop_first().len() == 0);
            let buf = full;
            assert(valid_prefix_len(buf) == buf.len());
            assert(buf.subrange(0, buf.len() as int) == buf);
            assert(buf.subrange(buf.len() as int, buf.len() as int) == Seq::<u8>::empty());
            assert(ranges.len() == 1);
            let st = assemble_step(carry, file.subrange(s as int, e1 as int), true);
            assert(st.0 == decode_utf8(full));
            assert(assemble_run(file, ranges.drop_first(), st.1) == Seq::<char>::empty());
            assert(assemble_run(file, ranges, carry) == st.0 + assemble_run(
                file,
                ranges.drop_first(),
                st.1,
            ));
            assert(decode_utf8(full) + Seq::<char>::empty() == decode_utf8(full));
        } else {
            assert(ranges.drop_first().len() > 0);
            let w = file.subrange(s as int, e1 as int);
            let rest = window_payload(file.subrange(e1 as int, end as int), true);
            let buf = carry + w;
            let n = valid_prefix_len(buf);
            lemma_valid_prefix_facts(buf);
            let head = buf.subrange(0, n);
            let next_carry = buf.subrange(n, buf.len() as int);
            assert(file.subrange(s as int, end as int) == w + file.subrange(e1 as int, end as int));
            assert(window_payload(file.subrange(s as int, end as int), true) == w + rest);
            assert(full == head + (next_carry + rest));
            lemma_valid_concat_parts(head, next_carry + rest);
            lemma_run_from(file, e1, end, width, next_carry);
        }
    }
}

/// Reassembling a record whose text is valid UTF-8, in windows of any width, emits
/// exactly that text: the output does not depend on the width.
pub proof fn lemma_reassembly_exact(file: Seq<u8>, start: u32, end: u32, width: u32)
    requires
        start <= end <= file.len(),
        width >= 1,
        valid_utf8(window_payload(file.subrange(start as int, end as int), true)),
    ensures
        assemble_run(file, windows_of(start, end, width), Seq::<u8>::empty()) == decode_utf8(
            window_payload(file.subrange(start as int, end as int), true),
        ),
{
    let p = window_payload(file.subrange(start as int, end as int), true);
    assert(Seq::<u8>::empty() + p == p);
    lemma_run_from(file, start, end, width, Seq::<u8>::empty());
}

/// Reassembly of one record from its windows, in order. Bytes of a character that a
/// window boundary splits are carried over to the next window.
pub struct Assembler {
    pub carry: Vec<u8>,
}

impl Assembler {
    /// An assembler with nothing carried.
    pub fn new() -> (a: Assembler)
        ensures
            a.carry@ == Seq::<u8>::empty(),
    {
        Assembler { carry: Vec::new() }
    }

    /// Takes the bytes of the next window, `is_last` telling whether it ends the record,
    /// and returns the text it completes.
    pub fn push_window(&mut self, window: &[u8], is_last: bool) -> (text: String)
        ensures
            (text@, final(self).carry@) == assemble_step(old(self).carry@, window@, is_last),
    {
        let mut buf: Vec<u8> = Vec::new();
        std::mem::swap(&mut buf, &mut self.carry);
        let ghost carry = buf@;
        let len = window.len();
        let m: usize = if is_last && len > 0 && window[len - 1] == DELIMITER {
            len - 1
        } else {
            len
        };
        let ghost payload = window_payload(window@, is_last);
        assert(payload == window@.subrange(0, m as int));
        let mut i: usize = 0;
        while i < m
            invariant
                m <= window@.len(),
                i <= m,
                buf@ == carry + window@.subrange(0, i as int),
            decreases m - i,
        {
            buf.push(window[i]);
            assert(window@.subrange(0, i + 1) == window@.subrange(0, i as int).push(window@[i as int]));
            i = i + 1;
        }
        let ghost all = buf@;
        assert(all == carry + payload);
        match decode_bytes(buf.as_slice()) {
            Ok(s) => {
                proof {
                    assert(all.subrange(0, all.len() as int) == all);
                    assert(all.subrange(all.len() as int, all.len() as int) == Seq::<u8>::empty());
                }
                s
            },
            Err(n) => {
                proof {
                    lemma_valid_prefix_len(all, n as int);
                }
                let rest = buf.split_off(n);
                self.carry = rest;
                match decode_bytes(buf.as_slice()) {
                    Ok(s) => s,
                    Err(_) => String::new(),
                }
            },
        }
    }
}

} // verus!
