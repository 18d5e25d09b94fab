//! Consistent-overhead byte-stuffing of frames.
//!
//! A frame on the wire is the stuffed body followed by one delimiter
//! byte. Stuffing removes every zero byte from the body: the body is a
//! chain of blocks, each a code byte followed by that many minus one
//! literal bytes. A code below 255 says that a zero followed the block
//! in the payload (except for the last block, which ends the payload);
//! code 255 links a run of 254 literal bytes to the next block with no
//! zero between them. The delimiter can therefore never appear inside
//! a stuffed body, which is what makes frames self-delimiting.

use vstd::prelude::*;

verus! {

/// The reserved frame delimiter byte.
pub const COBS_DELIMITER: u8 = 0;

/// Longest run of literal bytes a single block can carry.
pub const MAX_BLOCK_LEN: usize = 254;

/// Length of the leading run of `s` that holds no zero byte.
pub open spec fn nonzero_prefix_len(s: Seq<u8>) -> nat
    decreases s.len(),
{
    if s.len() == 0 || s[0] == 0 {
        0
    } else {
        1 + nonzero_prefix_len(s.skip(1))
    }
}

/// What the name says of `nonzero_prefix_len`: it is the length of the
/// maximal zero-free prefix.
pub proof fn lemma_nonzero_prefix_len(s: Seq<u8>)
    ensures
        nonzero_prefix_len(s) <= s.len(),
        forall|j: int| 0 <= j < nonzero_prefix_len(s) ==> s[j] != 0,
        nonzero_prefix_len(s) < s.len() ==> s[nonzero_prefix_len(s) as int] == 0,
    decreases s.len(),
{
    if s.len() == 0 || s[0] == 0 {
    } else {
        lemma_nonzero_prefix_len(s.skip(1));
        assert forall|j: int| 0 <= j < nonzero_prefix_len(s) implies s[j] != 0 by {
            if j > 0 {
                assert(s.skip(1)[j - 1] != 0);
            }
        }
        if nonzero_prefix_len(s) < s.len() {
            assert(s.skip(1)[nonzero_prefix_len(s) - 1] == 0);
        }
    }
}

/// A zero-free prefix of length `k` bounds `nonzero_prefix_len` from
/// below; if a zero stands right after it, the bound is exact.
pub proof fn lemma_nonzero_prefix_len_from(s: Seq<u8>, k: nat)
    requires
        k <= s.len(),
        forall|j: int| 0 <= j < k ==> s[j] != 0,
    ensures
        nonzero_prefix_len(s) >= k,
        k < s.len() && s[k as int] == 0 ==> nonzero_prefix_len(s) == k,
    decreases k,
{
    if k == 0 {
        lemma_nonzero_prefix_len(s);
    } else {
        assert(s[0] != 0);
        assert forall|j: int| 0 <= j < k - 1 implies s.skip(1)[j] != 0 by {
            assert(s[j + 1] != 0);
        }
        lemma_nonzero_prefix_len_from(s.skip(1), (k - 1) as nat);
        if k < s.len() && s[k as int] == 0 {
            assert(s.skip(1)[k - 1] == 0);
        }
    }
}

/// The stuffed body of payload `p`: a chain of blocks, no zero bytes.
pub open spec fn cobs_encode(p: Seq<u8>) -> Seq<u8>
    decreases p.len(),
    via cobs_encode_decreases
{
    let k = nonzero_prefix_len(p);
    if k >= MAX_BLOCK_LEN {
        seq![255u8] + p.take(MAX_BLOCK_LEN as int) + cobs_encode(p.skip(MAX_BLOCK_LEN as int))
    } else if k == p.len() {
        seq![(k + 1) as u8] + p
    } else {
        seq![(k + 1) as u8] + p.take(k as int) + cobs_encode(p.skip(k as int + 1))
    }
}

#[via_fn]
proof fn cobs_encode_decreases(p: Seq<u8>) {
    lemma_nonzero_prefix_len(p);
}

/// Unstuffing of a frame body: reads the chain of blocks back into the
/// payload, or nothing if the chain is broken.
pub open spec fn cobs_decode(s: Seq<u8>) -> Option<Seq<u8>>
    decreases s.len(),
{
    if s.len() == 0 {
        None
    } else {
        let c = s[0] as int;
        if c == 0 || s.len() < c {
            None
        } else if s.len() == c {
            Some(s.subrange(1, c))
        } else {
            match cobs_decode(s.skip(c)) {
                Some(rest) => if c == 255 {
                    Some(s.subrange(1, c) + rest)
                } else {
                    Some(s.subrange(1, c) + seq![COBS_DELIMITER] + rest)
                },
                None => None,
            }
        }
    }
}

/// A stuffed body is never empty.
pub proof fn lemma_cobs_encode_nonempty(p: Seq<u8>)
    ensures
        cobs_encode(p).len() >= 1,
{
    lemma_nonzero_prefix_len(p);
}

/// No byte of a stuffed body equals the delimiter: the delimiter marks
/// frame ends and nothing else.
pub proof fn lemma_cobs_encode_no_delimiter(p: Seq<u8>)
    ensures
        forall|i: int| 0 <= i < cobs_encode(p).len() ==> cobs_encode(p)[i] != COBS_DELIMITER,
    decreases p.len(),
{
    lemma_nonzero_prefix_len(p);
    let k = nonzero_prefix_len(p);
    let e = cobs_encode(p);
    if k >= MAX_BLOCK_LEN {
        lemma_cobs_encode_no_delimiter(p.skip(MAX_BLOCK_LEN as int));
        assert forall|i: int| 0 <= i < e.len() implies e[i] != COBS_DELIMITER by {
            if 1 <= i < 255 {
                assert(e[i] == p[i - 1]);
            } else if i >= 255 {
                assert(e[i] == cobs_encode(p.skip(MAX_BLOCK_LEN as int))[i - 255]);
            }
        }
    } else if k == p.len() {
        assert forall|i: int| 0 <= i < e.len() implies e[i] != COBS_DELIMITER by {
            if i >= 1 {
                assert(e[i] == p[i - 1]);
            }
        }
    } else {
        lemma_cobs_encode_no_delimiter(p.skip(k as int + 1));
        assert forall|i: int| 0 <= i < e.len() implies e[i] != COBS_DELIMITER by {
            if 1 <= i < k + 1 {
                assert(e[i] == p[i - 1]);
            } else if i >= k + 1 {
                assert(e[i] == cobs_encode(p.skip(k as int + 1))[i - (k + 1)]);
            }
        }
    }
}

/// Unstuffing undoes stuffing: the frame body round-trips exactly.
pub proof fn lemma_cobs_round_trip(p: Seq<u8>)
    ensures
        cobs_decode(cobs_encode(p)) == Some(p),
    decreases p.len(),
{
    lemma_nonzero_prefix_len(p);
    let k = nonzero_prefix_len(p);
    let e = cobs_encode(p);
    if k >= MAX_BLOCK_LEN {
        lemma_cobs_encode_nonempty(p.skip(MAX_BLOCK_LEN as int));
        lemma_cobs_round_trip(p.skip(MAX_BLOCK_LEN as int));
        assert(e[0] == 255);
        assert(e.len() > 255);
        assert(e.skip(255) =~= cobs_encode(p.skip(MAX_BLOCK_LEN as int)));
        assert(e.subrange(1, 255) =~= p.take(MAX_BLOCK_LEN as int));
        assert(p.take(MAX_BLOCK_LEN as int) + p.skip(MAX_BLOCK_LEN as int) =~= p);
    } else if k == p.len() {
        assert(e[0] == k + 1);
        assert(e.len() == k + 1);
        assert(e.subrange(1, k as int + 1) =~= p);
    } else {
        lemma_cobs_encode_nonempty(p.skip(k as int + 1));
        lemma_cobs_round_trip(p.skip(k as int + 1));
        assert(e[0] == k + 1);
        assert(e.len() > k + 1);
        assert(e.skip(k as int + 1) =~= cobs_encode(p.skip(k as int + 1)));
        assert(e.subrange(1, k as int + 1) =~= p.take(k as int));
        assert(p[k as int] == 0);
        assert(p.take(k as int) + seq![COBS_DELIMITER] + p.skip(k as int + 1) =~= p);
    }
}

/// Appends `src[from..to]` to `out`.
pub fn push_range(out: &mut Vec<u8>, src: &Vec<u8>, from: usize, to: usize)
    requires
        from <= to <= src@.len(),
    ensures
        final(out)@ == old(out)@ + src@.subrange(from as int, to as int),
{
    let mut j: usize = from;
    while j < to
        invariant
            from <= j <= to <= src@.len(),
            out@ == old(out)@ + src@.subrange(from as int, j as int),
        decreases to - j,
    {
        out.push(src[j]);
        proof {
            assert(out@ =~= old(out)@ + src@.subrange(from as int, j as int + 1));
        }
        j = j + 1;
    }
    proof {
        assert(out@ =~= old(out)@ + src@.subrange(from as int, to as int));
    }
}

/// Stuffs `payload` and appends the delimiter: the complete frame as
/// it goes out on the wire.
pub fn cobs_encode_frame(payload: &Vec<u8>) -> (frame: Vec<u8>)
    ensures
        frame@ == cobs_encode(payload@) + seq![COBS_DELIMITER],
{
    let mut out: Vec<u8> = Vec::new();
    let mut i: usize = 0;
    proof {
        assert(payload@.skip(0) =~= payload@);
        assert(Seq::<u8>::empty() + cobs_encode(payload@) =~= cobs_encode(payload@));
    }
    loop
        invariant
            i <= payload@.len(),
            out@ + cobs_encode(payload@.skip(i as int)) == cobs_encode(payload@),
        decreases payload@.len() - i,
    {
        let ghost tail = payload@.skip(i as int);
        // length of the zero-free run at the block head, capped at 254
        let mut k: usize = 0;
        while k < payload.len() - i && k < MAX_BLOCK_LEN && payload[i + k] != 0
            invariant
                i <= payload@.len(),
                k <= MAX_BLOCK_LEN,
                i + k <= payload@.len(),
                forall|j: int| 0 <= j < k ==> payload@.skip(i as int)[j] != 0,
            decreases payload@.len() - i - k,
        {
            assert(payload@.skip(i as int)[k as int] == payload@[i + k]);
            k = k + 1;
        }
        proof {
            lemma_nonzero_prefix_len_from(tail, k as nat);
            lemma_nonzero_prefix_len(tail);
        }
        if k == MAX_BLOCK_LEN {
            out.push(255);
            push_range(&mut out, payload, i, i + MAX_BLOCK_LEN);
            proof {
                assert(cobs_encode(tail) == seq![255u8] + tail.take(MAX_BLOCK_LEN as int)
                    + cobs_encode(tail.skip(MAX_BLOCK_LEN as int)));
                assert(tail.take(MAX_BLOCK_LEN as int) =~= payload@.subrange(
                    i as int,
                    i as int + MAX_BLOCK_LEN,
                ));
                assert(tail.skip(MAX_BLOCK_LEN as int) =~= payload@.skip(
                    i as int + MAX_BLOCK_LEN,
                ));
                assert(out@ + cobs_encode(payload@.skip(i as int + MAX_BLOCK_LEN))
                    =~= cobs_encode(payload@));
            }
            i = i + MAX_BLOCK_LEN;
        } else if i + k == payload.len() {
            // the final block: the zero-free run reaches the payload's end
            out.push((k + 1) as u8);
            push_range(&mut out, payload, i, i + k);
            out.push(COBS_DELIMITER);
            proof {
                assert(nonzero_prefix_len(tail) == k);
                assert(cobs_encode(tail) == seq![(k + 1) as u8] + tail);
                assert(tail =~= payload@.subrange(i as int, i as int + k));
                assert(out@ =~= cobs_encode(payload@) + seq![COBS_DELIMITER]);
            }
            return out;
        } else {
            // a zero follows the run: it is swallowed by the code byte
            assert(payload@[i + k] == 0);
            out.push((k + 1) as u8);
            push_range(&mut out, payload, i, i + k);
            proof {
                assert(tail[k as int] == payload@[i + k]);
                assert(nonzero_prefix_len(tail) == k);
                assert(cobs_encode(tail) == seq![(k + 1) as u8] + tail.take(k as int)
                    + cobs_encode(tail.skip(k as int + 1)));
                assert(tail.take(k as int) =~= payload@.subrange(i as int, i as int + k));
                assert(tail.skip(k as int + 1) =~= payload@.skip(i as int + k + 1));
                assert(out@ + cobs_encode(payload@.skip(i as int + k + 1))
                    =~= cobs_encode(payload@));
            }
            i = i + k + 1;
        }
    }
}

/// Unstuffs the body of `frame`, the delimiter at its end already
/// checked and dropped by the caller; mirrors `cobs_decode`.
pub fn cobs_decode_body(body: &Vec<u8>) -> (r: Option<Vec<u8>>)
    ensures
        match cobs_decode(body@) {
            Some(p) => r is Some && r->Some_0@ == p,
            None => r is None,
        },
{
    if body.len() == 0 {
        return None;
    }
    let mut out: Vec<u8> = Vec::new();
    let mut i: usize = 0;
    proof {
        assert(body@.skip(0) =~= body@);
        if cobs_decode(body@) is Some {
            assert(Seq::<u8>::empty() + cobs_decode(body@)->Some_0 =~= cobs_decode(
                body@,
            )->Some_0);
        }
    }
    loop
        invariant
            i < body@.len(),
            match cobs_decode(body@.skip(i as int)) {
                Some(rest) => cobs_decode(body@) == Some(out@ + rest),
                None => cobs_decode(body@) is None,
            },
        decreases body@.len() - i,
    {
        let ghost tail = body@.skip(i as int);
        assert(tail[0] == body@[i as int]);
        let c = body[i];
        if c == 0 {
            return None;
        }
        if body.len() - i < c as usize {
            assert(tail.len() < c);
            return None;
        }
        let ghost out_before = out@;
        push_range(&mut out, body, i + 1, i + c as usize);
        proof {
            assert(tail.subrange(1, c as int) =~= body@.subrange(i as int + 1, i as int + c));
        }
        if body.len() - i == c as usize {
            // the final block consumes the body exactly
            proof {
                assert(tail.len() == c);
                assert(cobs_decode(tail) == Some(tail.subrange(1, c as int)));
                assert(out@ =~= out_before + tail.subrange(1, c as int));
            }
            return Some(out);
        }
        proof {
            assert(tail.skip(c as int) =~= body@.skip(i as int + c));
        }
        if c < 255 {
            out.push(COBS_DELIMITER);
        }
        proof {
            let next = body@.skip(i as int + c);
            if cobs_decode(next) is Some {
                let rest2 = cobs_decode(next)->Some_0;
                if c == 255 {
                    assert(cobs_decode(tail) == Some(tail.subrange(1, c as int) + rest2));
                    assert(out@ + rest2 =~= out_before + (tail.subrange(1, c as int) + rest2));
                } else {
                    assert(cobs_decode(tail) == Some(
                        tail.subrange(1, c as int) + seq![COBS_DELIMITER] + rest2,
                    ));
                    assert(out@ + rest2 =~= out_before + (tail.subrange(1, c as int)
                        + seq![COBS_DELIMITER] + rest2));
                }
            }
        }
        i = i + c as usize;
    }
}

} // verus!
