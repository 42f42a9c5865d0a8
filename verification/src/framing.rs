//! The length field of the framing codec.
//!
//! Each message is preceded by its plaintext byte length, rendered as
//! ASCII decimal digits right-aligned in a 16-byte field whose unused
//! leading bytes are null bytes. The receiver scans the decrypted
//! field, treating only ASCII digit bytes as significant, and
//! accumulates the declared length; overflow of the accumulator is a
//! framing error. The payload ciphertext that follows is always the
//! declared length rounded up to the next multiple of the cipher block
//! size (a full extra block when the length is already a multiple).

use vstd::prelude::*;

use crate::ChannelError;

verus! {

/// Cipher block size in bytes.
pub const BLOCK_BYTES: usize = 16;

/// Width of the plaintext length field in bytes.
pub const LEN_FIELD_BYTES: usize = 16;

/// Ciphertext length of an encrypted length field: the padding rule
/// applied to a 16-byte plaintext.
pub const LEN_RECORD_BYTES: usize = 32;

/// Smallest payload length that does not fit the 16-digit decimal
/// length field.
pub const LEN_LIMIT: u64 = 10000000000000000;

/// Ciphertext length the block cipher produces for a plaintext of
/// `len` bytes: the next multiple of the block size, a full extra
/// block when `len` is already a multiple.
pub open spec fn spec_padded_len(len: int) -> int {
    len + 16 - len % 16
}

/// The ASCII decimal digits of `n`, most significant first.
pub open spec fn spec_digits(n: nat) -> Seq<u8>
    decreases n,
{
    if n < 10 {
        seq![(48 + n) as u8]
    } else {
        spec_digits(n / 10) + seq![(48 + n % 10) as u8]
    }
}

/// The 16-byte length field for a payload of `n` bytes: the decimal
/// digits of `n`, left-padded to 16 bytes with null bytes.
pub open spec fn spec_len_field(n: nat) -> Seq<u8> {
    if spec_digits(n).len() <= 16 {
        Seq::new((16 - spec_digits(n).len()) as nat, |i: int| 0u8) + spec_digits(n)
    } else {
        spec_digits(n)
    }
}

/// One step of the receiver's scan: an ASCII digit extends the
/// accumulated length, any other byte is skipped.
pub open spec fn spec_parse_step(acc: nat, b: u8) -> nat {
    if 48 <= b && b <= 57 {
        (acc * 10 + (b - 48)) as nat
    } else {
        acc
    }
}

/// The receiver's scan of a decrypted length field, left to right,
/// starting from `acc`.
pub open spec fn spec_parse_acc(s: Seq<u8>, acc: nat) -> nat
    decreases s.len(),
{
    if s.len() == 0 {
        acc
    } else {
        spec_parse_acc(s.drop_first(), spec_parse_step(acc, s[0]))
    }
}

/// The declared length read from a decrypted length field.
pub open spec fn spec_parse_len(s: Seq<u8>) -> nat {
    spec_parse_acc(s, 0)
}

/// Scanning a concatenation scans the two parts in order.
proof fn lemma_parse_acc_append(a: Seq<u8>, b: Seq<u8>, acc: nat)
    ensures
        spec_parse_acc(a + b, acc) == spec_parse_acc(b, spec_parse_acc(a, acc)),
    decreases a.len(),
{
    if a.len() == 0 {
        assert(a + b =~= b);
    } else {
        assert((a + b).drop_first() =~= a.drop_first() + b);
        lemma_parse_acc_append(a.drop_first(), b, spec_parse_step(acc, a[0]));
    }
}

/// Bytes that are not ASCII digits leave the accumulator unchanged.
proof fn lemma_parse_acc_zeros(s: Seq<u8>, acc: nat)
    requires
        forall|i: int| 0 <= i < s.len() ==> s[i] == 0u8,
    ensures
        spec_parse_acc(s, acc) == acc,
    decreases s.len(),
{
    if s.len() > 0 {
        lemma_parse_acc_zeros(s.drop_first(), acc);
    }
}

/// Scanning the decimal digits of `n` from an empty accumulator
/// recovers `n`.
proof fn lemma_parse_digits(n: nat)
    ensures
        spec_parse_acc(spec_digits(n), 0) == n,
    decreases n,
{
    if n < 10 {
        let d = (48 + n) as u8;
        assert(spec_digits(n) == seq![d]);
        assert(seq![d].drop_first() =~= Seq::<u8>::empty());
        assert(spec_parse_acc(seq![d], 0) == spec_parse_acc(Seq::<u8>::empty(), spec_parse_step(0, d)));
        assert(48 <= d <= 57);
        assert(spec_parse_step(0, d) == n);
    } else {
        let d = (48 + n % 10) as u8;
        lemma_parse_digits(n / 10);
        lemma_parse_acc_append(spec_digits(n / 10), seq![d], 0);
        assert(seq![d].drop_first() =~= Seq::<u8>::empty());
        assert(spec_parse_acc(seq![d], n / 10) == spec_parse_acc(
            Seq::<u8>::empty(),
            spec_parse_step(n / 10, d),
        ));
        assert(48 <= d <= 57);
        assert(spec_parse_step(n / 10, d) == (n / 10) * 10 + n % 10);
        assert((n / 10) * 10 + n % 10 == n);
    }
}

/// The scan never shrinks the accumulator.
proof fn lemma_parse_acc_grows(s: Seq<u8>, acc: nat)
    ensures
        spec_parse_acc(s, acc) >= acc,
    decreases s.len(),
{
    if s.len() > 0 {
        lemma_parse_acc_grows(s.drop_first(), spec_parse_step(acc, s[0]));
    }
}

/// Powers of ten, for bounding digit counts.
spec fn pow10(k: nat) -> nat
    decreases k,
{
    if k == 0 {
        1
    } else {
        10 * pow10((k - 1) as nat)
    }
}

/// `n` has at most `k` decimal digits when `n < 10^k`.
proof fn lemma_digits_len(n: nat, k: nat)
    requires
        1 <= k,
        n < pow10(k),
    ensures
        spec_digits(n).len() <= k,
    decreases n,
{
    if n >= 10 {
        assert(pow10(1) == 10) by {
            reveal_with_fuel(pow10, 2);
        }
        if k == 1 {
            assert(false);
        }
        assert(pow10(k) == 10 * pow10((k - 1) as nat));
        lemma_digits_len(n / 10, (k - 1) as nat);
    }
}

/// The length-field capacity written out as a power of ten.
proof fn lemma_pow10_16()
    ensures
        pow10(16) == 10000000000000000,
{
    reveal_with_fuel(pow10, 17);
}

/// Round-trip of the length field: the receiver's scan of the field
/// written for a payload of `n < 10^16` bytes yields exactly `n`.
pub proof fn lemma_len_field_round_trip(n: nat)
    ensures
        n < 10000000000000000 ==> spec_parse_len(spec_len_field(n)) == n && spec_len_field(
            n,
        ).len() == 16,
{
    if n < 10000000000000000 {
        lemma_pow10_16();
        lemma_digits_len(n, 16);
        let zeros = Seq::new((16 - spec_digits(n).len()) as nat, |i: int| 0u8);
        lemma_parse_acc_append(zeros, spec_digits(n), 0);
        lemma_parse_acc_zeros(zeros, 0);
        lemma_parse_digits(n);
    }
}

/// Boundary behaviour of the padding rule: a declared length of zero
/// and a declared length that is an exact multiple of the block size
/// both expand by one full block.
pub proof fn lemma_padded_len_full_block(len: int)
    requires
        len >= 0,
        len % 16 == 0,
    ensures
        spec_padded_len(len) == len + 16,
        spec_padded_len(0) == 16,
{
}

/// Number of ciphertext bytes the cipher produces for a `len`-byte
/// plaintext, and hence how many bytes the receiver must read for a
/// declared payload length of `len`.
pub fn padded_len(len: usize) -> (r: usize)
    requires
        len + 16 <= usize::MAX,
    ensures
        r == spec_padded_len(len as int),
        len < r <= len + 16,
        r % 16 == 0,
{
    let rem: usize = len % 16;
    proof {
        assert((len + 16 - len % 16) % 16 == 0) by (nonlinear_arith)
            requires
                len >= 0,
        ;
    }
    len + 16 - rem
}

/// Pushes the decimal digits of `n`, most significant first, onto
/// `out`.
fn push_digits(out: &mut Vec<u8>, n: usize)
    ensures
        final(out)@ == old(out)@ + spec_digits(n as nat),
    decreases n,
{
    if n >= 10 {
        push_digits(out, n / 10);
    }
    out.push(48 + (n % 10) as u8);
    proof {
        assert(out@ =~= old(out)@ + spec_digits(n as nat));
    }
}

/// Writes the 16-byte length field for a payload of `len` bytes: the
/// ASCII decimal digits of `len`, left-padded with null bytes.
pub fn encode_len_field(len: usize) -> (r: Vec<u8>)
    requires
        (len as int) < LEN_LIMIT as int,
    ensures
        r@ == spec_len_field(len as nat),
        r@.len() == 16,
{
    proof {
        lemma_pow10_16();
        lemma_digits_len(len as nat, 16);
    }
    let mut digits: Vec<u8> = Vec::new();
    push_digits(&mut digits, len);
    let mut r: Vec<u8> = Vec::new();
    let pad: usize = 16 - digits.len();
    let mut k: usize = 0;
    while k < pad
        invariant
            k <= pad,
            r@ =~= Seq::new(k as nat, |i: int| 0u8),
        decreases pad - k,
    {
        r.push(0u8);
        k = k + 1;
        proof {
            assert(r@ =~= Seq::new(k as nat, |i: int| 0u8));
        }
    }
    r.append(&mut digits);
    proof {
        assert(r@ =~= spec_len_field(len as nat));
    }
    r
}

/// Scans a decrypted length field as the receiver does: ASCII digit
/// bytes accumulate a decimal length, all other bytes are skipped, and
/// overflow of the accumulator is a framing error.
pub fn decode_len_field(field: &[u8]) -> (r: Result<usize, ChannelError>)
    ensures
        match r {
            Ok(n) => n as nat == spec_parse_len(field@),
            Err(e) => e == ChannelError::Framing && spec_parse_len(field@) > usize::MAX,
        },
{
    let mut acc: usize = 0;
    let mut i: usize = 0;
    proof {
        assert(field@.skip(0) =~= field@);
    }
    while i < field.len()
        invariant
            i <= field@.len(),
            spec_parse_len(field@) == spec_parse_acc(field@.skip(i as int), acc as nat),
        decreases field@.len() - i,
    {
        let b = field[i];
        proof {
            assert(field@.skip(i as int)[0] == b);
            assert(field@.skip(i as int).drop_first() =~= field@.skip(i as int + 1));
        }
        if 48 <= b && b <= 57 {
            let d: usize = (b - 48) as usize;
            if acc > (usize::MAX - d) / 10 {
                proof {
                    assert(acc * 10 + d > usize::MAX) by (nonlinear_arith)
                        requires
                            acc > (usize::MAX - d) / 10,
                            d <= 9,
                    ;
                    lemma_parse_acc_grows(field@.skip(i as int + 1), (acc * 10 + d) as nat);
                }
                return Err(ChannelError::Framing);
            }
            proof {
                assert(acc * 10 + d <= usize::MAX) by (nonlinear_arith)
                    requires
                        acc <= (usize::MAX - d) / 10,
                        d <= 9,
                ;
            }
            acc = acc * 10 + d;
        }
        i = i + 1;
    }
    proof {
        assert(field@.skip(i as int) =~= Seq::<u8>::empty());
    }
    Ok(acc)
}

} // verus!
