//! Minecraft VarInts as the proxy reads them: up to five read attempts, seven
//! payload bits per byte, least significant group first, stopping at the
//! first byte whose top bit is clear.

use vstd::prelude::*;

verus! {

/// The largest number of read attempts one VarInt may take.
pub const MAX_VARINT_ATTEMPTS: usize = 5;

/// `128` to the power `i`: the weight of the `i`-th seven-bit group.
pub open spec fn weight(i: nat) -> nat
    decreases i,
{
    if i == 0 {
        1
    } else {
        128 * weight((i - 1) as nat)
    }
}

/// What the `i`-th read attempt contributes: its payload bits at the weight of
/// the attempt, or nothing when the attempt read no byte.
pub open spec fn contribution(outcome: Option<u8>, i: nat) -> nat {
    match outcome {
        Some(b) => ((b % 128) as nat) * weight(i),
        None => 0,
    }
}

/// The sum of the contributions of a run of read attempts.
pub open spec fn outcome_sum(outcomes: Seq<Option<u8>>) -> nat
    decreases outcomes.len(),
{
    if outcomes.len() == 0 {
        0
    } else {
        outcome_sum(outcomes.drop_last()) + contribution(
            outcomes.last(),
            (outcomes.len() - 1) as nat,
        )
    }
}

/// The `i32` a run of read attempts stands for: the sum taken modulo `2^32`
/// and read as two's complement.
pub open spec fn outcome_value(outcomes: Seq<Option<u8>>) -> i32 {
    ((outcome_sum(outcomes) % 0x1_0000_0000) as u32) as i32
}

/// The bytes that a run of read attempts obtained, in order.
pub open spec fn outcome_bytes(outcomes: Seq<Option<u8>>) -> Seq<u8>
    decreases outcomes.len(),
{
    if outcomes.len() == 0 {
        Seq::empty()
    } else {
        let rest = outcome_bytes(outcomes.drop_last());
        match outcomes.last() {
            Some(b) => rest.push(b),
            None => rest,
        }
    }
}

/// Whether an attempt obtained the last byte of a VarInt.
pub open spec fn is_final_byte(outcome: Option<u8>) -> bool {
    match outcome {
        Some(b) => b < 128,
        None => false,
    }
}

/// A run of attempts after which the reader stops: it ended on a final byte,
/// or it used all five attempts.
pub open spec fn outcomes_finished(outcomes: Seq<Option<u8>>) -> bool {
    outcomes.len() >= MAX_VARINT_ATTEMPTS || (outcomes.len() > 0 && is_final_byte(
        outcomes.last(),
    ))
}

/// A run of attempts that a reader can have made: at most five, and none but
/// the last one obtained a final byte.
pub open spec fn outcomes_valid(outcomes: Seq<Option<u8>>) -> bool {
    &&& outcomes.len() <= MAX_VARINT_ATTEMPTS
    &&& forall|i: int| 0 <= i < outcomes.len() - 1 ==> !is_final_byte(#[trigger] outcomes[i])
}

/// Reads one VarInt from a stream, one read attempt at a time.
///
/// The caller performs each read and hands over its outcome: `Some(byte)` when
/// a byte came, `None` when the read failed or the stream had ended. A failed
/// attempt still uses up its seven-bit position.
pub struct VarintReader {
    attempts: usize,
    bits: u32,
    bytes: Vec<u8>,
    finished: bool,
    outcomes: Ghost<Seq<Option<u8>>>,
}

/// How the value is kept while reading: the plain sum, below the next weight,
/// except for the fifth group, whose high bits fall off the `u32`.
pub open spec fn bits_match(bits: u32, outcomes: Seq<Option<u8>>) -> bool {
    &&& bits as nat == outcome_sum(outcomes) % 0x1_0000_0000
    &&& outcomes.len() < MAX_VARINT_ATTEMPTS ==> outcome_sum(outcomes) < weight(outcomes.len())
}

impl VarintReader {
    /// The read attempts handed to the reader so far.
    pub closed spec fn outcomes(&self) -> Seq<Option<u8>> {
        self.outcomes@
    }

    /// The reader's internal invariant.
    pub closed spec fn wf(&self) -> bool {
        &&& outcomes_valid(self.outcomes@)
        &&& self.attempts == self.outcomes@.len()
        &&& bits_match(self.bits, self.outcomes@)
        &&& self.bytes@ == outcome_bytes(self.outcomes@)
        &&& self.finished == (self.outcomes@.len() > 0 && is_final_byte(self.outcomes@.last()))
    }

    /// A reader that has made no attempt.
    pub fn new() -> (r: Self)
        ensures
            r.wf(),
            r.outcomes() == Seq::<Option<u8>>::empty(),
    {
        VarintReader {
            attempts: 0,
            bits: 0,
            bytes: Vec::new(),
            finished: false,
            outcomes: Ghost(Seq::empty()),
        }
    }

    /// Whether reading stops here: the last byte had its top bit clear, or
    /// five attempts were made.
    pub fn is_finished(&self) -> (b: bool)
        requires
            self.wf(),
        ensures
            b == outcomes_finished(self.outcomes()),
    {
        self.finished || self.attempts >= MAX_VARINT_ATTEMPTS
    }

    /// Records the outcome of one more read attempt.
    pub fn feed(&mut self, outcome: Option<u8>)
        requires
            old(self).wf(),
            !outcomes_finished(old(self).outcomes()),
        ensures
            final(self).wf(),
            final(self).outcomes() == old(self).outcomes().push(outcome),
    {
        let ghost old_outcomes = self.outcomes@;
        let ghost new_outcomes = old_outcomes.push(outcome);
        let i = self.attempts;
        proof {
            assert(new_outcomes.drop_last() =~= old_outcomes);
        }
        match outcome {
            Some(b) => {
                let c: u32 = (b & 0x7f) as u32;
                assert(c == b % 128) by (bit_vector)
                    requires
                        c == (b & 0x7f) as u32,
                ;
                let sh: u32 = (7 * i) as u32;
                let new_bits = self.bits | (c << sh);
                proof {
                    lemma_add_group(self.bits, c, i as nat, outcome_sum(old_outcomes));
                }
                self.bits = new_bits;
                self.bytes.push(b);
                assert(b & 0x80 == 0 <==> b < 128) by (bit_vector);
                if b & 0x80 == 0 {
                    self.finished = true;
                }
            },
            None => {},
        }
        self.attempts = i + 1;
        self.outcomes = Ghost(new_outcomes);
    }

    /// The value read so far.
    pub fn value(&self) -> (v: i32)
        requires
            self.wf(),
        ensures
            v == outcome_value(self.outcomes()),
    {
        self.bits as i32
    }

    /// The bytes obtained so far, in order.
    pub fn bytes(&self) -> (b: &Vec<u8>)
        requires
            self.wf(),
        ensures
            b@ == outcome_bytes(self.outcomes()),
    {
        &self.bytes
    }

    /// The value and the bytes, giving the reader up.
    pub fn into_parts(self) -> (r: (i32, Vec<u8>))
        requires
            self.wf(),
        ensures
            r.0 == outcome_value(self.outcomes()),
            r.1@ == outcome_bytes(self.outcomes()),
    {
        (self.bits as i32, self.bytes)
    }
}

/// Adding the `i`-th group to the bits read so far: the OR of disjoint groups
/// is their sum, cut to 32 bits.
proof fn lemma_add_group(bits: u32, c: u32, i: nat, sum: nat)
    requires
        i < 5,
        c < 128,
        bits as nat == sum % 0x1_0000_0000,
        sum < weight(i),
    ensures
        (bits | (c << ((7 * i) as u32))) as nat == (sum + c * weight(i)) % 0x1_0000_0000,
        i < 4 ==> sum + c * weight(i) < weight(i + 1),
{
    reveal_with_fuel(weight, 6);
    if i == 0 {
        assert(bits == 0);
        assert(0u32 | (c << 0u32) == c) by (bit_vector);
    } else if i == 1 {
        assert(bits < 128 && c < 128 ==> bits | (c << 7u32) == bits + c * 128) by (bit_vector);
    } else if i == 2 {
        assert(bits < 16384 && c < 128 ==> bits | (c << 14u32) == bits + c * 16384)
            by (bit_vector);
    } else if i == 3 {
        assert(bits < 2097152 && c < 128 ==> bits | (c << 21u32) == bits + c * 2097152)
            by (bit_vector);
    } else {
        assert(bits < 268435456 && c < 128 ==> (bits | (c << 28u32)) as int == (bits + c
            * 268435456) % 0x1_0000_0000) by (bit_vector);
    }
}

/// The number of bytes one VarInt takes from the front of `bytes`, counting
/// from position `i`: up to and including the first final byte, at most five,
/// at most what is there.
pub open spec fn varint_len_from(bytes: Seq<u8>, i: nat) -> nat
    decreases MAX_VARINT_ATTEMPTS - i,
{
    if i >= MAX_VARINT_ATTEMPTS || i >= bytes.len() {
        i
    } else if bytes[i as int] < 128 {
        i + 1
    } else {
        varint_len_from(bytes, i + 1)
    }
}

/// The number of bytes a VarInt read takes from the front of `bytes`.
pub open spec fn varint_len(bytes: Seq<u8>) -> nat {
    varint_len_from(bytes, 0)
}

/// The weighted sum of a run of bytes read without a failed attempt.
pub open spec fn byte_sum(bytes: Seq<u8>) -> nat
    decreases bytes.len(),
{
    if bytes.len() == 0 {
        0
    } else {
        byte_sum(bytes.drop_last()) + ((bytes.last() % 128) as nat) * weight(
            (bytes.len() - 1) as nat,
        )
    }
}

/// The value of the VarInt at the front of `bytes`.
pub open spec fn varint_value(bytes: Seq<u8>) -> i32 {
    ((byte_sum(bytes.subrange(0, varint_len(bytes) as int)) % 0x1_0000_0000) as u32) as i32
}

/// Attempts on an in-memory buffer: the bytes one by one, then only `None`.
pub open spec fn buffer_outcomes(bytes: Seq<u8>, n: nat) -> Seq<Option<u8>> {
    Seq::new(n, |i: int| if i < bytes.len() { Some(bytes[i]) } else { None })
}

proof fn lemma_buffer_outcomes(bytes: Seq<u8>, n: nat)
    ensures
        outcome_sum(buffer_outcomes(bytes, n)) == byte_sum(
            bytes.subrange(0, if n < bytes.len() { n as int } else { bytes.len() as int }),
        ),
        outcome_bytes(buffer_outcomes(bytes, n)) == bytes.subrange(
            0,
            if n < bytes.len() { n as int } else { bytes.len() as int },
        ),
    decreases n,
{
    if n > 0 {
        let m = (n - 1) as nat;
        lemma_buffer_outcomes(bytes, m);
        assert(buffer_outcomes(bytes, n).drop_last() =~= buffer_outcomes(bytes, m));
        if m < bytes.len() {
            assert(bytes.subrange(0, n as int).drop_last() =~= bytes.subrange(0, m as int));
        }
    }
}

proof fn lemma_varint_len_from(bytes: Seq<u8>, i: nat)
    requires
        i <= MAX_VARINT_ATTEMPTS,
        i <= bytes.len(),
        forall|j: int| 0 <= j < i ==> bytes[j] >= 128,
    ensures
        i <= varint_len_from(bytes, i) <= MAX_VARINT_ATTEMPTS,
        varint_len_from(bytes, i) <= bytes.len(),
        forall|j: int| 0 <= j < varint_len_from(bytes, i) - 1 ==> bytes[j] >= 128,
    decreases MAX_VARINT_ATTEMPTS - i,
{
    if i < MAX_VARINT_ATTEMPTS && i < bytes.len() && bytes[i as int] >= 128 {
        lemma_varint_len_from(bytes, i + 1);
    }
}

/// Reads one VarInt from an in-memory buffer, the way a read from a byte slice
/// goes: the bytes in order, and past the end only empty reads.
///
/// Returns the value and the bytes it took.
pub fn decode_varint(bytes: &[u8]) -> (r: (i32, Vec<u8>))
    ensures
        r.0 == varint_value(bytes@),
        r.1@ == bytes@.subrange(0, varint_len(bytes@) as int),
{
    let mut reader = VarintReader::new();
    let mut pos: usize = 0;
    proof {
        lemma_varint_len_from(bytes@, 0);
    }
    while !reader.is_finished()
        invariant
            reader.wf(),
            pos <= bytes@.len(),
            pos <= reader.outcomes().len() <= MAX_VARINT_ATTEMPTS,
            reader.outcomes() == buffer_outcomes(bytes@, reader.outcomes().len()),
            pos == (if reader.outcomes().len() < bytes@.len() {
                reader.outcomes().len()
            } else {
                bytes@.len()
            }),
            forall|j: int| 0 <= j < pos ==> j < reader.outcomes().len() - 1 ==> bytes@[j] >= 128,
            reader.outcomes().len() > 0 && reader.outcomes().len() <= bytes@.len() ==> (bytes@[
                reader.outcomes().len() - 1] < 128 <==> is_final_byte(reader.outcomes().last())),
        decreases MAX_VARINT_ATTEMPTS - reader.outcomes().len(),
    {
        if pos < bytes.len() {
            reader.feed(Some(bytes[pos]));
            pos = pos + 1;
        } else {
            reader.feed(None);
        }
        assert(reader.outcomes() =~= buffer_outcomes(bytes@, reader.outcomes().len()));
    }
    let ghost n = reader.outcomes().len();
    proof {
        lemma_buffer_outcomes(bytes@, n);
        lemma_varint_len_matches(bytes@, n);
    }
    reader.into_parts()
}

/// Where a VarInt read stops, counted from a position before it.
proof fn lemma_varint_len_at(bytes: Seq<u8>, i: nat, m: nat)
    requires
        i < m <= MAX_VARINT_ATTEMPTS,
        m <= bytes.len(),
        forall|j: int| i <= j < m - 1 ==> bytes[j] >= 128,
        m == MAX_VARINT_ATTEMPTS || m == bytes.len() || bytes[m - 1] < 128,
    ensures
        varint_len_from(bytes, i) == m,
    decreases m - i,
{
    if bytes[i as int] >= 128 {
        if i + 1 < m {
            lemma_varint_len_at(bytes, i + 1, m);
        } else {
            assert(varint_len_from(bytes, i + 1) == m);
        }
    }
}

/// Where the slice reader stops is where the spec says a VarInt ends.
proof fn lemma_varint_len_matches(bytes: Seq<u8>, n: nat)
    requires
        n <= MAX_VARINT_ATTEMPTS,
        outcomes_finished(buffer_outcomes(bytes, n)),
        forall|j: int|
            0 <= j < (if n < bytes.len() { n as int } else { bytes.len() as int }) ==> j < n - 1
                ==> bytes[j] >= 128,
        n > 0 && n <= bytes.len() ==> (bytes[n - 1] < 128 <==> is_final_byte(
            buffer_outcomes(bytes, n).last(),
        )),
    ensures
        varint_len(bytes) == (if n < bytes.len() { n } else { bytes.len() }),
{
    let m: nat = if n < bytes.len() { n } else { bytes.len() };
    if m > 0 {
        if n > bytes.len() {
            assert(!is_final_byte(buffer_outcomes(bytes, n).last()));
        }
        lemma_varint_len_at(bytes, 0, m);
    }
}

/// Whether the VarInt at the front of `bytes` is complete: it ends on a final
/// byte or takes all five bytes.
pub open spec fn varint_complete(bytes: Seq<u8>) -> bool {
    varint_len(bytes) == MAX_VARINT_ATTEMPTS || (varint_len(bytes) > 0 && bytes[varint_len(bytes)
        - 1] < 128)
}

proof fn lemma_varint_len_from_extend(bytes: Seq<u8>, extra: Seq<u8>, i: nat)
    requires
        i <= varint_len_from(bytes, i),
        varint_len_from(bytes, i) == MAX_VARINT_ATTEMPTS || (varint_len_from(bytes, i) > i
            && bytes[varint_len_from(bytes, i) - 1] < 128),
    ensures
        varint_len_from(bytes + extra, i) == varint_len_from(bytes, i),
    decreases MAX_VARINT_ATTEMPTS - i,
{
    let all = bytes + extra;
    if i < MAX_VARINT_ATTEMPTS && i < bytes.len() {
        assert(all[i as int] == bytes[i as int]);
        if bytes[i as int] >= 128 {
            lemma_varint_len_from_extend(bytes, extra, i + 1);
        }
    }
}

/// Bytes after a complete VarInt do not change it: reading it from a longer
/// buffer takes the same bytes and gives the same value.
pub proof fn lemma_varint_prefix_stable(bytes: Seq<u8>, extra: Seq<u8>)
    requires
        varint_complete(bytes),
    ensures
        varint_len(bytes + extra) == varint_len(bytes),
        (bytes + extra).subrange(0, varint_len(bytes) as int) == bytes.subrange(
            0,
            varint_len(bytes) as int,
        ),
        varint_value(bytes + extra) == varint_value(bytes),
{
    lemma_varint_len_from(bytes, 0);
    lemma_varint_len_from_extend(bytes, extra, 0);
    assert((bytes + extra).subrange(0, varint_len(bytes) as int) =~= bytes.subrange(
        0,
        varint_len(bytes) as int,
    ));
}

} // verus!
