//! CRC-16/CCITT-FALSE: polynomial `0x1021`, initial value `0xFFFF`, no
//! reflection, no final inversion.
use vstd::prelude::*;

verus! {

/// One step of the division: shift the remainder left by one bit and subtract
/// the polynomial whenever a bit falls out at the top.
pub open spec fn shift_step(rem: u16) -> u16 {
    if rem & 0x8000 != 0 {
        (rem << 1) ^ 0x1021
    } else {
        rem << 1
    }
}

/// `n` division steps.
pub open spec fn shift_steps(rem: u16, n: nat) -> u16
    decreases n,
{
    if n == 0 {
        rem
    } else {
        shift_step(shift_steps(rem, (n - 1) as nat))
    }
}

/// The remainder after one more message byte: the byte enters at the top and
/// is divided away bit by bit.
pub open spec fn absorb(rem: u16, byte: u8) -> u16 {
    shift_steps(rem ^ ((byte as u16) << 8), 8)
}

/// The remainder after the bytes of `data`, starting from `init`.
pub open spec fn remainder(init: u16, data: Seq<u8>) -> u16
    decreases data.len(),
{
    if data.len() == 0 {
        init
    } else {
        absorb(remainder(init, data.drop_last()), data.last())
    }
}

/// The checksum of `data`.
pub open spec fn checksum(data: Seq<u8>) -> u16 {
    remainder(0xFFFF, data)
}

/// Computes the CRC-16/CCITT-FALSE checksum of `data`.
pub fn crc16(data: &[u8]) -> (crc: u16)
    ensures
        crc == checksum(data@),
{
    let mut crc: u16 = 0xFFFF;
    let mut i: usize = 0;
    assert(data@.take(0) =~= Seq::<u8>::empty());
    while i < data.len()
        invariant
            i <= data@.len(),
            crc == checksum(data@.take(i as int)),
        decreases data@.len() - i,
    {
        let ghost start = crc ^ ((data@[i as int] as u16) << 8);
        crc = crc ^ ((data[i] as u16) << 8);
        let mut bit: usize = 0;
        while bit < 8
            invariant
                bit <= 8,
                crc == shift_steps(start, bit as nat),
            decreases 8 - bit,
        {
            crc = if crc & 0x8000 != 0 {
                (crc << 1) ^ 0x1021
            } else {
                crc << 1
            };
            bit = bit + 1;
        }
        proof {
            let grown = data@.take(i + 1);
            assert(grown.drop_last() =~= data@.take(i as int));
            assert(grown.last() == data@[i as int]);
        }
        i = i + 1;
    }
    assert(data@.take(i as int) =~= data@);
    crc
}

proof fn lemma_shift_step_injective(a: u16, b: u16)
    ensures
        shift_step(a) == shift_step(b) ==> a == b,
{
    assert((if a & 0x8000 != 0 {
        (a << 1) ^ 0x1021
    } else {
        a << 1
    }) == (if b & 0x8000 != 0 {
        (b << 1) ^ 0x1021
    } else {
        b << 1
    }) ==> a == b) by (bit_vector);
}

proof fn lemma_shift_steps_injective(a: u16, b: u16, n: nat)
    ensures
        shift_steps(a, n) == shift_steps(b, n) ==> a == b,
    decreases n,
{
    if n > 0 {
        lemma_shift_step_injective(
            shift_steps(a, (n - 1) as nat),
            shift_steps(b, (n - 1) as nat),
        );
        lemma_shift_steps_injective(a, b, (n - 1) as nat);
    }
}

/// Two messages that share a suffix have different remainders wherever the
/// remainders before that suffix differ.
pub proof fn lemma_remainder_injective(a: u16, b: u16, data: Seq<u8>)
    ensures
        remainder(a, data) == remainder(b, data) ==> a == b,
    decreases data.len(),
{
    if data.len() > 0 {
        let ra = remainder(a, data.drop_last());
        let rb = remainder(b, data.drop_last());
        let top = (data.last() as u16) << 8;
        lemma_shift_steps_injective(ra ^ top, rb ^ top, 8);
        assert(ra ^ top == rb ^ top ==> ra == rb) by (bit_vector);
        lemma_remainder_injective(a, b, data.drop_last());
    }
}

/// The remainder of a concatenation continues from the remainder of its first
/// part.
pub proof fn lemma_remainder_concat(init: u16, front: Seq<u8>, back: Seq<u8>)
    ensures
        remainder(init, front + back) == remainder(remainder(init, front), back),
    decreases back.len(),
{
    if back.len() == 0 {
        assert(front + back =~= front);
    } else {
        assert((front + back).drop_last() =~= front + back.drop_last());
        assert((front + back).last() == back.last());
        lemma_remainder_concat(init, front, back.drop_last());
    }
}

/// Altering any one byte of a message alters its checksum.
pub proof fn law_checksum_detects_altered_byte(data: Seq<u8>, i: int, byte: u8)
    requires
        0 <= i < data.len(),
        data[i] != byte,
    ensures
        checksum(data.update(i, byte)) != checksum(data),
{
    let front = data.take(i);
    let back = data.skip(i + 1);
    let init = remainder(0xFFFF, front);
    let old_byte = data[i];
    assert(data =~= (front + seq![old_byte]) + back);
    assert(data.update(i, byte) =~= (front + seq![byte]) + back);
    lemma_remainder_concat(0xFFFF, front + seq![old_byte], back);
    lemma_remainder_concat(0xFFFF, front + seq![byte], back);
    assert((front + seq![old_byte]).drop_last() =~= front);
    assert((front + seq![byte]).drop_last() =~= front);
    let a = init ^ ((old_byte as u16) << 8);
    let b = init ^ ((byte as u16) << 8);
    assert(a == b ==> old_byte == byte) by (bit_vector)
        requires
            a == init ^ ((old_byte as u16) << 8),
            b == init ^ ((byte as u16) << 8),
    ;
    lemma_shift_steps_injective(a, b, 8);
    lemma_remainder_injective(absorb(init, old_byte), absorb(init, byte), back);
}

/// What the checksum is: `0xFFFF` for no bytes, and with each byte more it takes the
/// byte in at the top and goes through eight steps, in each of which it doubles, and
/// the polynomial `0x1021` is subtracted where a bit is carried out at the top.
pub proof fn law_checksum_by_bytes(data: Seq<u8>, byte: u8)
    ensures
        checksum(Seq::empty()) == 0xFFFF,
        ({
            let step = |rem: u16|
                if rem >= 0x8000 {
                    ((2 * rem - 0x10000) as u16) ^ 0x1021
                } else {
                    (2 * rem) as u16
                };
            let start = checksum(data) ^ ((256 * byte) as u16);
            checksum(data.push(byte)) == step(step(step(step(step(step(step(step(start))))))))
        }),
{
    let grown = data.push(byte);
    assert(grown.drop_last() =~= data);
    assert((byte as u16) << 8 == (256 * byte) as u16) by (bit_vector);
    let start = checksum(data) ^ ((256 * byte) as u16);
    reveal_with_fuel(shift_steps, 9);
    assert forall|rem: u16| #[trigger] shift_step(rem) == (if rem >= 0x8000 {
        ((2 * rem - 0x10000) as u16) ^ 0x1021
    } else {
        (2 * rem) as u16
    }) by {
        lemma_step_is_doubling(rem);
    }
}

proof fn lemma_step_is_doubling(rem: u16)
    ensures
        shift_step(rem) == if rem >= 0x8000 {
            ((2 * rem - 0x10000) as u16) ^ 0x1021
        } else {
            (2 * rem) as u16
        },
{
    assert(rem & 0x8000 != 0 <==> rem >= 0x8000) by (bit_vector);
    assert(rem < 0x8000 ==> rem << 1 == (2 * rem) as u16) by (bit_vector);
    assert(rem >= 0x8000 ==> rem << 1 == (2 * (rem - 0x8000)) as u16) by (bit_vector);
}

} // verus!
