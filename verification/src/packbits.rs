//! PackBits run-length coding of byte buffers.
//!
//! A packed buffer is a sequence of instructions. An instruction byte below
//! 128 is followed by that many bytes plus one, to be copied. An instruction
//! byte above 128 is followed by one byte, to be written `257 - byte` times.
//! The instruction byte 128 stands alone and writes nothing.

use vstd::prelude::*;
use crate::error::FormatError;

verus! {

/// Length of the longest prefix of `s` whose bytes all equal the first one.
pub open spec fn repeat_run(s: Seq<u8>) -> nat
    decreases s.len(),
{
    if s.len() == 0 {
        0
    } else if s.len() >= 2 && s[1] == s[0] {
        1 + repeat_run(s.drop_first())
    } else {
        1
    }
}

/// Length of the longest prefix of `s` in which no byte equals the one
/// before it.
pub open spec fn literal_run(s: Seq<u8>) -> nat
    decreases s.len(),
{
    if s.len() == 0 {
        0
    } else if s.len() >= 2 && s[1] != s[0] {
        1 + literal_run(s.drop_first())
    } else {
        1
    }
}

/// What `repeat_run` measures: the run is a prefix, its bytes are equal, and
/// the byte behind it, if any, differs.
pub proof fn lemma_repeat_run(s: Seq<u8>)
    ensures
        repeat_run(s) <= s.len(),
        s.len() > 0 ==> repeat_run(s) >= 1,
        forall|k: int| 0 <= k < repeat_run(s) ==> #[trigger] s[k] == s[0],
        repeat_run(s) < s.len() ==> s[repeat_run(s) as int] != s[0],
    decreases s.len(),
{
    if s.len() >= 2 && s[1] == s[0] {
        let t = s.drop_first();
        lemma_repeat_run(t);
        assert forall|k: int| 0 <= k < repeat_run(s) implies #[trigger] s[k] == s[0] by {
            if k > 0 {
                assert(s[k] == t[k - 1]);
            }
        }
        if repeat_run(s) < s.len() {
            assert(s[repeat_run(s) as int] == t[repeat_run(t) as int]);
        }
    }
}

/// A prefix of equal bytes that cannot be extended is the repeat run.
pub proof fn lemma_repeat_run_is(s: Seq<u8>, n: nat)
    requires
        1 <= n <= s.len(),
        forall|k: int| 0 <= k < n ==> #[trigger] s[k] == s[0],
        n < s.len() ==> s[n as int] != s[0],
    ensures
        repeat_run(s) == n,
    decreases n,
{
    if n >= 2 {
        let t = s.drop_first();
        assert(s[1] == s[0]);
        assert forall|k: int| 0 <= k < n - 1 implies #[trigger] t[k] == t[0] by {
            assert(t[k] == s[k + 1]);
            assert(t[0] == s[1]);
        }
        if n - 1 < t.len() {
            assert(t[n - 1] == s[n as int]);
        }
        lemma_repeat_run_is(t, (n - 1) as nat);
    }
}

/// The byte of `s` at `k` differs from the one before it.
pub open spec fn changes_at(s: Seq<u8>, k: int) -> bool {
    s[k] != s[k - 1]
}

/// What `literal_run` measures: the run is a prefix, no byte in it equals
/// its predecessor, and the byte behind it, if any, equals the run's last.
pub proof fn lemma_literal_run(s: Seq<u8>)
    ensures
        literal_run(s) <= s.len(),
        s.len() > 0 ==> literal_run(s) >= 1,
        forall|k: int| 1 <= k < literal_run(s) ==> #[trigger] changes_at(s, k),
        0 < literal_run(s) < s.len() ==> s[literal_run(s) as int] == s[literal_run(s) - 1],
    decreases s.len(),
{
    if s.len() >= 2 && s[1] != s[0] {
        let t = s.drop_first();
        lemma_literal_run(t);
        assert forall|k: int| 1 <= k < literal_run(s) implies #[trigger] changes_at(s, k) by {
            if k > 1 {
                assert(changes_at(t, k - 1));
                assert(s[k] == t[k - 1]);
                assert(s[k - 1] == t[k - 2]);
            }
        }
        if literal_run(s) < s.len() {
            assert(s[literal_run(s) as int] == t[literal_run(t) as int]);
            assert(s[literal_run(s) - 1] == t[literal_run(t) - 1]);
        }
    }
}

/// A prefix without equal neighbours that cannot be extended is the literal
/// run.
pub proof fn lemma_literal_run_is(s: Seq<u8>, n: nat)
    requires
        1 <= n <= s.len(),
        forall|k: int| 1 <= k < n ==> #[trigger] changes_at(s, k),
        n < s.len() ==> s[n as int] == s[n - 1],
    ensures
        literal_run(s) == n,
    decreases n,
{
    if n >= 2 {
        let t = s.drop_first();
        assert(changes_at(s, 1));
        assert forall|k: int| 1 <= k < n - 1 implies #[trigger] changes_at(t, k) by {
            assert(changes_at(s, k + 1));
            assert(t[k] == s[k + 1]);
            assert(t[k - 1] == s[k]);
        }
        if n - 1 < t.len() {
            assert(t[n - 1] == s[n as int]);
            assert(t[n - 2] == s[n - 1]);
        }
        lemma_literal_run_is(t, (n - 1) as nat);
    }
}

/// The longest run one instruction can carry.
pub const MAX_RUN: usize = 128;

/// Instruction byte that repeats the next byte `n` times, `2 <= n <= 128`.
pub open spec fn repeat_code(n: nat) -> u8 {
    (257 - n) as u8
}

/// Instruction byte that copies the next `n` bytes, `1 <= n <= 128`.
pub open spec fn literal_code(n: nat) -> u8 {
    (n - 1) as u8
}

/// Number of input bytes that the first instruction of the packed form of
/// `s` stands for.
pub open spec fn first_chunk(s: Seq<u8>) -> nat {
    let run = if repeat_run(s) > literal_run(s) {
        repeat_run(s)
    } else {
        literal_run(s)
    };
    if run > 128 {
        128
    } else {
        run
    }
}

/// The packed form of `s`.
///
/// At each position the longer of the repeat run and the literal run is
/// taken, the literal run on a tie, cut to 128 bytes; packing goes on behind
/// what was taken.
pub open spec fn pack_spec(s: Seq<u8>) -> Seq<u8>
    decreases s.len(),
{
    if s.len() == 0 {
        Seq::empty()
    } else {
        let n = first_chunk(s);
        proof {
            lemma_repeat_run(s);
            lemma_literal_run(s);
        }
        if repeat_run(s) > literal_run(s) {
            seq![repeat_code(n), s[0]] + pack_spec(s.skip(n as int))
        } else {
            seq![literal_code(n)] + s.take(n as int) + pack_spec(s.skip(n as int))
        }
    }
}

/// `head` in front of what `tail` holds, nothing where `tail` is nothing.
pub open spec fn prepend(head: Seq<u8>, tail: Option<Seq<u8>>) -> Option<Seq<u8>> {
    match tail {
        Some(rest) => Some(head + rest),
        None => None,
    }
}

/// What a packed buffer expands to, or `None` where it ends inside an
/// instruction.
pub open spec fn unpack_spec(s: Seq<u8>) -> Option<Seq<u8>>
    decreases s.len(),
{
    if s.len() == 0 {
        Some(Seq::empty())
    } else if s[0] < 128 {
        let n = s[0] + 1;
        if s.len() < 1 + n {
            None
        } else {
            prepend(s.subrange(1, 1 + n), unpack_spec(s.skip(1 + n)))
        }
    } else if s[0] == 128 {
        unpack_spec(s.skip(1))
    } else if s.len() < 2 {
        None
    } else {
        prepend(Seq::new((257 - s[0]) as nat, |i: int| s[1]), unpack_spec(s.skip(2)))
    }
}

/// Unpacking a literal instruction in front of `rest` yields its bytes in
/// front of what `rest` unpacks to.
pub proof fn lemma_unpack_literal(data: Seq<u8>, rest: Seq<u8>)
    requires
        1 <= data.len() <= 128,
    ensures
        unpack_spec(seq![literal_code(data.len())] + data + rest) == prepend(
            data,
            unpack_spec(rest),
        ),
{
    let s = seq![literal_code(data.len())] + data + rest;
    let n = data.len() as int;
    assert(s[0] == n - 1);
    assert(s.subrange(1, 1 + n) =~= data);
    assert(s.skip(1 + n) =~= rest);
}

/// Unpacking a repeat instruction in front of `rest` yields the repeated
/// byte `n` times in front of what `rest` unpacks to.
pub proof fn lemma_unpack_repeat(n: nat, byte: u8, rest: Seq<u8>)
    requires
        2 <= n <= 128,
    ensures
        unpack_spec(seq![repeat_code(n), byte] + rest) == prepend(
            Seq::new(n, |i: int| byte),
            unpack_spec(rest),
        ),
{
    let s = seq![repeat_code(n), byte] + rest;
    assert(s[0] == 257 - n);
    assert(s[1] == byte);
    assert(s.skip(2) =~= rest);
    assert(Seq::new((257 - s[0]) as nat, |i: int| s[1]) =~= Seq::new(n, |i: int| byte));
}

/// Unpacking the packed form of any buffer gives the buffer back.
pub proof fn lemma_pack_round_trip(s: Seq<u8>)
    ensures
        unpack_spec(pack_spec(s)) == Some(s),
    decreases s.len(),
{
    if s.len() == 0 {
        assert(pack_spec(s) =~= Seq::<u8>::empty());
    } else {
        lemma_repeat_run(s);
        lemma_literal_run(s);
        let n = first_chunk(s);
        let rest = s.skip(n as int);
        lemma_pack_round_trip(rest);
        if repeat_run(s) > literal_run(s) {
            lemma_unpack_repeat(n, s[0], pack_spec(rest));
            assert(Seq::new(n, |i: int| s[0]) + rest =~= s);
        } else {
            lemma_unpack_literal(s.take(n as int), pack_spec(rest));
            assert(s.take(n as int) + rest =~= s);
        }
    }
}

/// Length of the repeat run of `bytes` at `start`.
fn repeat_run_at(bytes: &[u8], start: usize) -> (n: usize)
    requires
        start < bytes.len(),
    ensures
        n == repeat_run(bytes@.skip(start as int)),
        1 <= n,
        start + n <= bytes.len(),
{
    let first: u8 = bytes[start];
    let mut end: usize = start + 1;
    while end < bytes.len() && bytes[end] == first
        invariant
            start < end <= bytes.len(),
            first == bytes@[start as int],
            forall|k: int| start <= k < end ==> #[trigger] bytes@[k] == first,
        decreases bytes.len() - end,
    {
        end += 1;
    }
    proof {
        lemma_repeat_run_is(bytes@.skip(start as int), (end - start) as nat);
    }
    end - start
}

/// Length of the literal run of `bytes` at `start`.
fn literal_run_at(bytes: &[u8], start: usize) -> (n: usize)
    requires
        start < bytes.len(),
    ensures
        n == literal_run(bytes@.skip(start as int)),
        1 <= n,
        start + n <= bytes.len(),
{
    let mut end: usize = start + 1;
    while end < bytes.len() && bytes[end] != bytes[end - 1]
        invariant
            start < end <= bytes.len(),
            forall|k: int| start < k < end ==> #[trigger] changes_at(bytes@, k),
        decreases bytes.len() - end,
    {
        end += 1;
    }
    proof {
        let tail = bytes@.skip(start as int);
        assert forall|k: int| 1 <= k < end - start implies #[trigger] changes_at(tail, k) by {
            assert(changes_at(bytes@, start + k));
        }
        lemma_literal_run_is(tail, (end - start) as nat);
    }
    end - start
}

/// Packs `bytes`.
///
/// The result is the packed form that `pack_spec` defines, and unpacking it
/// gives `bytes` back.
pub fn pack_bits(bytes: &[u8]) -> (packed: Vec<u8>)
    ensures
        packed@ == pack_spec(bytes@),
        unpack_spec(packed@) == Some(bytes@),
{
    let mut packed: Vec<u8> = Vec::new();
    let mut i: usize = 0;
    proof {
        assert(bytes@.skip(0) =~= bytes@);
    }
    while i < bytes.len()
        invariant
            i <= bytes.len(),
            pack_spec(bytes@) == packed@ + pack_spec(bytes@.skip(i as int)),
        decreases bytes.len() - i,
    {
        let ghost tail = bytes@.skip(i as int);
        let ghost before = packed@;
        let repeated: usize = repeat_run_at(bytes, i);
        let verbatim: usize = literal_run_at(bytes, i);
        if repeated > verbatim {
            let count: usize = if repeated > MAX_RUN { MAX_RUN } else { repeated };
            packed.push((257 - count) as u8);
            packed.push(bytes[i]);
            proof {
                assert(count == first_chunk(tail));
                assert(tail.skip(count as int) =~= bytes@.skip(i + count));
                assert(packed@ =~= before + seq![repeat_code(count as nat), tail[0]]);
            }
            i += count;
        } else {
            let count: usize = if verbatim > MAX_RUN { MAX_RUN } else { verbatim };
            packed.push((count - 1) as u8);
            let mut k: usize = 0;
            while k < count
                invariant
                    k <= count,
                    i + count <= bytes.len(),
                    tail == bytes@.skip(i as int),
                    packed@ == before + seq![literal_code(count as nat)] + tail.take(k as int),
                decreases count - k,
            {
                packed.push(bytes[i + k]);
                proof {
                    assert(tail.take(k + 1) =~= tail.take(k as int).push(tail[k as int]));
                }
                k += 1;
            }
            proof {
                assert(count == first_chunk(tail));
                assert(tail.skip(count as int) =~= bytes@.skip(i + count));
            }
            i += count;
        }
    }
    proof {
        assert(pack_spec(bytes@.skip(i as int)) =~= Seq::<u8>::empty());
        lemma_pack_round_trip(bytes@);
    }
    packed
}

/// Unpacks `buf`.
///
/// Succeeds exactly where every instruction of `buf` has its operands; a
/// buffer that ends inside an instruction is rejected as a whole.
pub fn unpack_bits(buf: &[u8]) -> (r: Result<Vec<u8>, FormatError>)
    ensures
        match r {
            Ok(bytes) => unpack_spec(buf@) == Some(bytes@),
            Err(e) => unpack_spec(buf@) is None && e == FormatError::TruncatedPackBits,
        },
{
    let mut bytes: Vec<u8> = Vec::new();
    let mut i: usize = 0;
    proof {
        assert(buf@.skip(0) =~= buf@);
    }
    while i < buf.len()
        invariant
            i <= buf.len(),
            unpack_spec(buf@) == prepend(bytes@, unpack_spec(buf@.skip(i as int))),
        decreases buf.len() - i,
    {
        let ghost tail = buf@.skip(i as int);
        let ghost before = bytes@;
        let instruction: u8 = buf[i];
        if instruction < 128 {
            let count: usize = instruction as usize + 1;
            if buf.len() - i < 1 + count {
                return Err(FormatError::TruncatedPackBits);
            }
            let mut k: usize = 0;
            while k < count
                invariant
                    k <= count,
                    i + 1 + count <= buf.len(),
                    tail == buf@.skip(i as int),
                    bytes@ == before + tail.subrange(1, 1 + k),
                decreases count - k,
            {
                bytes.push(buf[i + 1 + k]);
                proof {
                    assert(tail.subrange(1, 1 + k + 1) =~= tail.subrange(1, 1 + k).push(
                        tail[1 + k],
                    ));
                }
                k += 1;
            }
            proof {
                assert(tail.skip(1 + count) =~= buf@.skip(i + 1 + count));
                let rest = unpack_spec(tail.skip(1 + count));
                if rest is Some {
                    assert(before + (tail.subrange(1, 1 + count) + rest->0) =~= bytes@ + rest->0);
                }
            }
            i += 1 + count;
        } else if instruction == 128 {
            proof {
                assert(tail.skip(1) =~= buf@.skip(i + 1));
            }
            i += 1;
        } else {
            if buf.len() - i < 2 {
                return Err(FormatError::TruncatedPackBits);
            }
            let count: usize = 257 - instruction as usize;
            let value: u8 = buf[i + 1];
            let mut k: usize = 0;
            while k < count
                invariant
                    k <= count,
                    bytes@ == before + Seq::new(k as nat, |j: int| value),
                decreases count - k,
            {
                bytes.push(value);
                proof {
                    assert(Seq::new((k + 1) as nat, |j: int| value) =~= Seq::new(
                        k as nat,
                        |j: int| value,
                    ).push(value));
                }
                k += 1;
            }
            proof {
                assert(tail.skip(2) =~= buf@.skip(i + 2));
                let run = Seq::new((257 - tail[0]) as nat, |j: int| tail[1]);
                assert(run =~= Seq::new(count as nat, |j: int| value));
                let rest = unpack_spec(tail.skip(2));
                if rest is Some {
                    assert(before + (run + rest->0) =~= bytes@ + rest->0);
                }
            }
            i += 2;
        }
    }
    proof {
        assert(bytes@ + Seq::<u8>::empty() =~= bytes@);
    }
    Ok(bytes)
}

} // verus!
