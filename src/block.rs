//! Blocks: immutable records whose content hash is a digest of their other fields.

use vstd::prelude::*;
use vstd::string::*;
use vstd::utf8::encode_utf8;

verus! {

/// The lowercase hexadecimal SHA-256 digest of a byte message.
pub uninterp spec fn sha256_hex(msg: Seq<u8>) -> Seq<char>;

/// ASCII decimal digits of a natural number, most significant first.
pub open spec fn digits(n: nat) -> Seq<u8>
    decreases n,
{
    if n < 10 {
        seq![(48 + n) as u8]
    } else {
        digits(n / 10).push((48 + n % 10) as u8)
    }
}

/// ASCII decimal form of an integer, with a leading `-` when negative.
pub open spec fn decimal(t: int) -> Seq<u8> {
    if t < 0 {
        seq![45u8] + digits((-t) as nat)
    } else {
        digits(t as nat)
    }
}

/// The bytes that are hashed for a block: payload, decimal timestamp, parent hash and
/// proposer, in that order.
pub open spec fn block_message(
    data: Seq<char>,
    timestamp: int,
    parent: Seq<char>,
    proposer: Seq<char>,
) -> Seq<u8> {
    encode_utf8(data) + decimal(timestamp) + encode_utf8(parent) + encode_utf8(proposer)
}

/// The content hash of a block with the given fields.
pub open spec fn content_hash(
    data: Seq<char>,
    timestamp: int,
    parent: Seq<char>,
    proposer: Seq<char>,
) -> Seq<char> {
    sha256_hex(block_message(data, timestamp, parent, proposer))
}

/// The reserved parent hash of a block that has no predecessor: 64 zero digits.
pub open spec fn zero_hash() -> Seq<char> {
    Seq::new(64, |i: int| '0')
}

/// Relies on rust-crypto's `Sha256` (`Digest::input`, `Digest::result_str`): the hex
/// digest of the bytes fed in, always 64 characters.
#[verifier::external_body]
fn sha256_hex_of(msg: &[u8]) -> (r: String)
    ensures
        r@ == sha256_hex(msg@),
        r@.len() == 64,
{
    let mut hasher = crypto::sha2::Sha256::new();
    crypto::digest::Digest::input(&mut hasher, msg);
    crypto::digest::Digest::result_str(&mut hasher)
}

/// Relies on chrono's `Utc::now` and `DateTime::timestamp_millis`: the current time in
/// milliseconds since the Unix epoch. Nothing is known of the value.
#[verifier::external_body]
fn now_millis() -> (r: i64) {
    chrono::Utc::now().timestamp_millis()
}

/// Appends the decimal digits of `n` to `out`.
fn push_digits(n: u64, out: &mut Vec<u8>)
    ensures
        final(out)@ == old(out)@ + digits(n as nat),
    decreases n,
{
    if n >= 10 {
        push_digits(n / 10, out);
    }
    let d: u8 = (n % 10) as u8;
    out.push(48 + d);
    proof {
        if n >= 10 {
            assert(n as nat % 10 == d as nat);
        }
    }
    assert(final(out)@ =~= old(out)@ + digits(n as nat));
}

/// Appends the decimal form of `t` to `out`.
fn push_decimal(t: i64, out: &mut Vec<u8>)
    ensures
        final(out)@ == old(out)@ + decimal(t as int),
{
    if t < 0 {
        out.push(45u8);
        let magnitude: u64 = (-(t as i128)) as u64;
        push_digits(magnitude, out);
    } else {
        push_digits(t as u64, out);
    }
    assert(final(out)@ =~= old(out)@ + decimal(t as int));
}

/// Appends the UTF-8 bytes of `s` to `out`.
fn push_text(s: &String, out: &mut Vec<u8>)
    ensures
        final(out)@ == old(out)@ + encode_utf8(s@),
{
    let bytes: &[u8] = s.as_str().as_bytes();
    let mut i: usize = 0;
    while i < bytes.len()
        invariant
            0 <= i <= bytes@.len(),
            bytes@ == encode_utf8(s@),
            out@ == old(out)@ + bytes@.subrange(0, i as int),
        decreases bytes@.len() - i,
    {
        out.push(bytes[i]);
        i = i + 1;
        assert(out@ =~= old(out)@ + bytes@.subrange(0, i as int));
    }
    assert(bytes@.subrange(0, i as int) =~= bytes@);
}

/// Computes the content hash of a block with the given fields.
pub fn compute_hash(data: &String, timestamp: i64, parent: &String, proposer: &String) -> (r:
    String)
    ensures
        r@ == content_hash(data@, timestamp as int, parent@, proposer@),
        r@.len() == 64,
{
    let mut msg: Vec<u8> = Vec::new();
    push_text(data, &mut msg);
    push_decimal(timestamp, &mut msg);
    push_text(parent, &mut msg);
    push_text(proposer, &mut msg);
    assert(msg@ =~= block_message(data@, timestamp as int, parent@, proposer@));
    sha256_hex_of(msg.as_slice())
}

/// One chain entry or candidate. Its content hash is computed once, at construction, from
/// the other four fields, and no field changes afterwards.
#[derive(Debug, Clone)]
pub struct Block {
    data: String,
    timestamp: i64,
    block_hash: String,
    parent_block_hash: String,
    validator_address: String,
}

impl Block {
    pub closed spec fn payload_view(&self) -> Seq<char> {
        self.data@
    }

    pub closed spec fn time_view(&self) -> int {
        self.timestamp as int
    }

    pub closed spec fn hash_view(&self) -> Seq<char> {
        self.block_hash@
    }

    pub closed spec fn parent_view(&self) -> Seq<char> {
        self.parent_block_hash@
    }

    pub closed spec fn proposer_view(&self) -> Seq<char> {
        self.validator_address@
    }

    /// The content hash is the digest of the other four fields.
    pub open spec fn wf(&self) -> bool {
        self.hash_view() == content_hash(
            self.payload_view(),
            self.time_view(),
            self.parent_view(),
            self.proposer_view(),
        )
    }

    /// Builds a block stamped with the given time (milliseconds since the Unix epoch).
    pub fn with_timestamp(input: String, timestamp: i64, parent_hash: String, validator: String) -> (r:
        Block)
        ensures
            r.payload_view() == input@,
            r.time_view() == timestamp as int,
            r.parent_view() == parent_hash@,
            r.proposer_view() == validator@,
            r.wf(),
    {
        let block_hash = compute_hash(&input, timestamp, &parent_hash, &validator);
        Block {
            data: input,
            timestamp,
            block_hash,
            parent_block_hash: parent_hash,
            validator_address: validator,
        }
    }

    /// Builds a block stamped with the current time.
    pub fn new(input: String, parent_hash: String, validator: String) -> (r: Block)
        ensures
            r.payload_view() == input@,
            r.parent_view() == parent_hash@,
            r.proposer_view() == validator@,
            r.wf(),
    {
        let timestamp = now_millis();
        Block::with_timestamp(input, timestamp, parent_hash, validator)
    }

    /// The reserved hash that stands for "no parent": 64 zero digits.
    pub fn blank_hash() -> (r: String)
        ensures
            r@ == zero_hash(),
    {
        let mut r = String::new();
        let mut i: usize = 0;
        while i < 64
            invariant
                i <= 64,
                r@ == Seq::new(i as nat, |j: int| '0'),
            decreases 64 - i,
        {
            proof {
                reveal_strlit("0");
            }
            r.append("0");
            i = i + 1;
            assert(r@ =~= Seq::new(i as nat, |j: int| '0'));
        }
        r
    }

    pub fn data(&self) -> (r: &String)
        ensures
            r@ == self.payload_view(),
    {
        &self.data
    }

    pub fn timestamp(&self) -> (r: i64)
        ensures
            r as int == self.time_view(),
    {
        self.timestamp
    }

    pub fn block_hash(&self) -> (r: &String)
        ensures
            r@ == self.hash_view(),
    {
        &self.block_hash
    }

    pub fn parent_block_hash(&self) -> (r: &String)
        ensures
            r@ == self.parent_view(),
    {
        &self.parent_block_hash
    }

    pub fn validator_address(&self) -> (r: &String)
        ensures
            r@ == self.proposer_view(),
    {
        &self.validator_address
    }
}

/// Two blocks built from the same payload, timestamp, parent hash and proposer carry the
/// same content hash.
pub proof fn lemma_hash_deterministic(a: Block, b: Block)
    requires
        a.wf(),
        b.wf(),
        a.payload_view() == b.payload_view(),
        a.time_view() == b.time_view(),
        a.parent_view() == b.parent_view(),
        a.proposer_view() == b.proposer_view(),
    ensures
        a.hash_view() == b.hash_view(),
{
}

} // verus!
