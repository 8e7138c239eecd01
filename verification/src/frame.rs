//! The trailing checksum of a frame: the 8-bit wrap-around sum of all bytes
//! before the last one.

use vstd::prelude::*;

verus! {

/// Sum of the bytes of `bytes`, as a mathematical integer.
pub open spec fn byte_sum(bytes: Seq<u8>) -> int
    decreases bytes.len(),
{
    if bytes.len() == 0 {
        0
    } else {
        byte_sum(bytes.drop_last()) + bytes.last() as int
    }
}

/// The checksum byte that belongs behind `body`: its sum modulo 256.
pub open spec fn checksum_of(body: Seq<u8>) -> u8 {
    (byte_sum(body) % 256) as u8
}

/// `body` followed by its checksum byte.
pub open spec fn seal(body: Seq<u8>) -> Seq<u8> {
    body.push(checksum_of(body))
}

/// A frame is sealed when its last byte is the checksum of the bytes before it.
pub open spec fn sealed(frame: Seq<u8>) -> bool {
    frame.len() >= 1 && frame.last() == checksum_of(frame.drop_last())
}

/// Adding one byte to a sum adds it to the checksum, modulo 256.
pub proof fn lemma_checksum_push(body: Seq<u8>, byte: u8)
    ensures
        checksum_of(body.push(byte)) as int == (checksum_of(body) as int + byte as int) % 256,
{
    assert(body.push(byte).drop_last() =~= body);
    assert(byte_sum(body.push(byte)) == byte_sum(body) + byte as int);
    let s = byte_sum(body);
    assert((s + byte as int) % 256 == ((s % 256) + byte as int) % 256) by (nonlinear_arith);
}

/// Replacing one byte of a sequence moves its sum by the difference of the
/// new byte and the old one.
pub proof fn lemma_byte_sum_update(bytes: Seq<u8>, i: int, byte: u8)
    requires
        0 <= i < bytes.len(),
    ensures
        byte_sum(bytes.update(i, byte)) == byte_sum(bytes) - bytes[i] as int + byte as int,
    decreases bytes.len(),
{
    let changed = bytes.update(i, byte);
    if i == bytes.len() - 1 {
        assert(changed.drop_last() =~= bytes.drop_last());
    } else {
        assert(changed.drop_last() =~= bytes.drop_last().update(i, byte));
        lemma_byte_sum_update(bytes.drop_last(), i, byte);
    }
}

/// A body followed by its checksum passes verification, and is one byte longer.
pub proof fn lemma_seal_verifies(body: Seq<u8>)
    ensures
        sealed(seal(body)),
        seal(body).len() == body.len() + 1,
        seal(body).drop_last() == body,
{
    assert(seal(body).drop_last() =~= body);
}

/// Changing any single byte of a sealed frame to a different value is always
/// detected: the frame no longer verifies. This holds for each byte before
/// the checksum and for the checksum byte itself.
pub proof fn lemma_mutation_detected(frame: Seq<u8>, i: int, byte: u8)
    requires
        sealed(frame),
        0 <= i < frame.len(),
        byte != frame[i],
    ensures
        !sealed(frame.update(i, byte)),
{
    let body = frame.drop_last();
    let changed = frame.update(i, byte);
    if i == frame.len() - 1 {
        assert(changed.drop_last() =~= body);
    } else {
        assert(changed.drop_last() =~= body.update(i, byte));
        lemma_byte_sum_update(body, i, byte);
        let s = byte_sum(body);
        let d = byte as int - frame[i] as int;
        assert((s + d) % 256 != s % 256) by (nonlinear_arith)
            requires
                -256 < d < 256,
                d != 0,
        ;
    }
}

/// Overwrites the last byte of `command` with the checksum of the bytes before it.
pub fn checksum(command: &mut [u8])
    requires
        old(command)@.len() >= 1,
    ensures
        final(command)@ == seal(old(command)@.drop_last()),
        final(command)@.len() == old(command)@.len(),
        sealed(final(command)@),
{
    let last_idx: usize = command.len() - 1;
    let mut sum: u8 = 0;
    let mut i: usize = 0;
    while i < last_idx
        invariant
            last_idx + 1 == command@.len(),
            i <= last_idx,
            command@ == old(command)@,
            sum == checksum_of(command@.subrange(0, i as int)),
        decreases last_idx - i,
    {
        proof {
            lemma_checksum_push(command@.subrange(0, i as int), command@[i as int]);
            assert(command@.subrange(0, i as int).push(command@[i as int]) =~= command@.subrange(
                0,
                i + 1,
            ));
        }
        sum = sum.wrapping_add(command[i]);
        i += 1;
    }
    proof {
        assert(command@.subrange(0, last_idx as int) =~= old(command)@.drop_last());
    }
    command[last_idx] = sum;
    assert(command@ =~= seal(old(command)@.drop_last()));
    proof {
        lemma_seal_verifies(old(command)@.drop_last());
    }
}

/// Tells whether the last byte of `command` is the checksum of the bytes before it.
pub fn verify(command: &[u8]) -> (ok: bool)
    requires
        command@.len() >= 1,
    ensures
        ok == sealed(command@),
{
    let last_idx: usize = command.len() - 1;
    let mut sum: u8 = 0;
    let mut i: usize = 0;
    while i < last_idx
        invariant
            last_idx + 1 == command@.len(),
            i <= last_idx,
            sum == checksum_of(command@.subrange(0, i as int)),
        decreases last_idx - i,
    {
        proof {
            lemma_checksum_push(command@.subrange(0, i as int), command@[i as int]);
            assert(command@.subrange(0, i as int).push(command@[i as int]) =~= command@.subrange(
                0,
                i + 1,
            ));
        }
        sum = sum.wrapping_add(command[i]);
        i += 1;
    }
    proof {
        assert(command@.subrange(0, last_idx as int) =~= command@.drop_last());
    }
    command[last_idx] == sum
}

} // verus!
