//! Challenge puzzles and the tokens that solving them earns.

use crate::clock::{epoch_secs, fresh, is_fresh_at, is_reading, now, whole_secs, ClockReading};
use crate::crypto::{
    blake3_derived_key, blake3_keyed_hash, chacha8_keystream, derive_key, hash_of_text, hash_text,
    hex_encode, keyed_hash, keystream_at, same_hash,
};
use crate::ip::{is_address, IpAddr};
use crate::numbers::{
    decimal, digits, hex_bytes, hex_text, hexadecimal, lemma_digits, lemma_hex_bytes_of_text,
    lemma_number_of_digits, number, parse_number,
};
use crate::text::{
    chars_of, cut_once, first_of, lemma_first_of_unique, push_text, split, split_once, text_of,
};
use vstd::prelude::*;
use vstd::std_specs::bits::u32_leading_zeros;
use vstd::utf8::{decode_utf8, encode_utf8};

verus! {

/// Puzzle solutions cannot be redeemed for tokens if the puzzle was made longer ago than this, in
/// seconds.
pub const PUZZLE_LIFETIME: u64 = 300;

/// Number of sub-puzzles in a complete proof of work. This is part of the algorithm, and has
/// nothing to do with the difficulty that is configured.
pub const NUM_SOLUTION_OFFSETS: usize = 10;

// ------------------------------------------------------------------------------------------
// Fingerprints
// ------------------------------------------------------------------------------------------

/// A timestamped description of a client.
#[derive(Clone, Copy, Debug)]
pub struct Fingerprint<'a> {
    pub timestamp: u64,
    pub ip: IpAddr,
    pub user_agent: &'a str,
}

/// The `count` low bytes of a number, the lowest first.
pub open spec fn le_bytes(n: int, count: nat) -> Seq<u8>
    decreases count,
{
    if count == 0 {
        Seq::empty()
    } else {
        seq![(n % 256) as u8] + le_bytes(n / 256, (count - 1) as nat)
    }
}

/// The byte that marks the family of an address, by its octets: the ASCII digit `4` or `6`.
pub open spec fn family_mark(ip: Seq<u8>) -> u8 {
    if ip.len() == 4 {
        0x34
    } else {
        0x36
    }
}

/// The bytes that are hashed for a client: the timestamp in eight bytes, the mark of the address
/// family, the octets of the address, and the user agent up to the end.
pub open spec fn fingerprint_bytes(timestamp: u64, ip: Seq<u8>, user_agent: Seq<char>) -> Seq<u8> {
    le_bytes(timestamp as int, 8) + seq![family_mark(ip)] + ip + encode_utf8(user_agent)
}

impl<'a> Fingerprint<'a> {
    /// The bytes that are hashed for this client.
    pub open spec fn bytes(self) -> Seq<u8> {
        fingerprint_bytes(self.timestamp, self.ip@, self.user_agent@)
    }

    /// The fingerprint of a client at a time.
    pub fn new(ts: u64, ip: IpAddr, ua: &'a str) -> (r: Self)
        ensures
            r == (Fingerprint { timestamp: ts, ip, user_agent: ua }),
    {
        Fingerprint { timestamp: ts, ip, user_agent: ua }
    }

    /// The keyed hash of the fingerprint.
    pub fn keyed_hash(&self, key: &[u8; 32]) -> (r: [u8; 32])
        ensures
            r == blake3_keyed_hash(key@, self.bytes()),
    {
        let mut input: Vec<u8> = Vec::new();
        // A field of constant size.
        push_le_bytes(&mut input, self.timestamp);
        // The address comes in two sizes: its mark tells which bytes belong to it.
        match &self.ip {
            IpAddr::V4(octets) => {
                input.push(0x34);
                push_bytes(&mut input, octets.as_slice());
            },
            IpAddr::V6(octets) => {
                input.push(0x36);
                push_bytes(&mut input, octets.as_slice());
            },
        }
        // The user agent needs no length, as it is the last field.
        push_bytes(&mut input, self.user_agent.as_bytes());
        assert(input@ =~= self.bytes());
        keyed_hash(key, &input)
    }
}

/// Appends bytes to a buffer.
fn push_bytes(buffer: &mut Vec<u8>, bytes: &[u8])
    ensures
        final(buffer)@ == old(buffer)@ + bytes@,
{
    buffer.extend_from_slice(bytes);
}

/// Appends the eight bytes of a number, the lowest first.
fn push_le_bytes(buffer: &mut Vec<u8>, n: u64)
    ensures
        final(buffer)@ == old(buffer)@ + le_bytes(n as int, 8),
{
    let ghost before = buffer@;
    let mut rest: u64 = n;
    let mut left: usize = 8;
    while left > 0
        invariant
            left <= 8,
            buffer@ + le_bytes(rest as int, left as nat) == before + le_bytes(n as int, 8),
        decreases left,
    {
        let ghost so_far = buffer@;
        let low = (rest % 256) as u8;
        buffer.push(low);
        proof {
            let tail = le_bytes(rest as int / 256, (left - 1) as nat);
            assert(so_far + (seq![low] + tail) =~= so_far.push(low) + tail);
        }
        rest = rest / 256;
        left -= 1;
    }
    assert(buffer@ + le_bytes(rest as int, 0) =~= buffer@);
}

/// A number below 256 to the power `count`.
spec fn fits(n: int, count: nat) -> bool
    decreases count,
{
    if count == 0 {
        n == 0
    } else {
        0 <= n && fits(n / 256, (count - 1) as nat)
    }
}

proof fn lemma_le_bytes_len(n: int, count: nat)
    ensures
        le_bytes(n, count).len() == count,
    decreases count,
{
    if count > 0 {
        lemma_le_bytes_len(n / 256, (count - 1) as nat);
    }
}

proof fn lemma_le_bytes_injective(a: int, b: int, count: nat)
    requires
        fits(a, count),
        fits(b, count),
        le_bytes(a, count) == le_bytes(b, count),
    ensures
        a == b,
    decreases count,
{
    if count > 0 {
        let n = (count - 1) as nat;
        let x = le_bytes(a / 256, n);
        let y = le_bytes(b / 256, n);
        assert(x =~= le_bytes(a, count).skip(1));
        assert(y =~= le_bytes(b, count).skip(1));
        lemma_le_bytes_injective(a / 256, b / 256, n);
        assert(le_bytes(a, count)[0] == (a % 256) as u8);
        assert(le_bytes(b, count)[0] == (b % 256) as u8);
    }
}

proof fn lemma_u64_fits(n: u64)
    ensures
        fits(n as int, 8),
{
    reveal_with_fuel(fits, 9);
}

/// Two clients, or one at two times, never hash the same bytes: the timestamp, the address and the
/// user agent can be told from them.
pub proof fn law_fingerprint_is_unambiguous(
    ts1: u64,
    ip1: Seq<u8>,
    ua1: Seq<char>,
    ts2: u64,
    ip2: Seq<u8>,
    ua2: Seq<char>,
)
    requires
        is_address(ip1),
        is_address(ip2),
        fingerprint_bytes(ts1, ip1, ua1) == fingerprint_bytes(ts2, ip2, ua2),
    ensures
        ts1 == ts2,
        ip1 == ip2,
        ua1 == ua2,
{
    let a = fingerprint_bytes(ts1, ip1, ua1);
    let b = fingerprint_bytes(ts2, ip2, ua2);
    lemma_le_bytes_len(ts1 as int, 8);
    lemma_le_bytes_len(ts2 as int, 8);
    assert(a.take(8) =~= le_bytes(ts1 as int, 8));
    assert(b.take(8) =~= le_bytes(ts2 as int, 8));
    lemma_u64_fits(ts1);
    lemma_u64_fits(ts2);
    lemma_le_bytes_injective(ts1 as int, ts2 as int, 8);
    assert(a[8] == family_mark(ip1));
    assert(b[8] == family_mark(ip2));
    let n = ip1.len();
    assert(n == ip2.len());
    assert(a.subrange(9, 9 + n as int) =~= ip1);
    assert(b.subrange(9, 9 + n as int) =~= ip2);
    assert(a.skip(9 + n as int) =~= encode_utf8(ua1));
    assert(b.skip(9 + n as int) =~= encode_utf8(ua2));
    vstd::utf8::encode_utf8_decode_utf8(ua1);
    vstd::utf8::encode_utf8_decode_utf8(ua2);
    assert(decode_utf8(encode_utf8(ua1)) == ua1);
    assert(decode_utf8(encode_utf8(ua2)) == ua2);
}

// ------------------------------------------------------------------------------------------
// Proof of work
// ------------------------------------------------------------------------------------------

/// A solution that a client sent.
#[derive(Debug)]
pub struct Solution {
    /// Word offsets into the keystream of the puzzle.
    pub offsets: Vec<u32>,
    /// The timestamp of the puzzle.
    pub timestamp: u64,
}

/// The number whose bytes are given, the lowest first.
pub open spec fn le_word(bytes: [u8; 4]) -> u32 {
    (bytes[0] + bytes[1] * 0x100 + bytes[2] * 0x1_0000 + bytes[3] * 0x100_0000) as u32
}

/// The 32-bit word of a puzzle's keystream at a word offset.
pub open spec fn puzzle_word(nonce: Seq<u8>, offset: u32) -> u32 {
    le_word(chacha8_keystream(nonce, (offset * 4) as u64))
}

/// Whether offsets solve the puzzle with the given nonce: there are as many as a solution needs,
/// they increase strictly, and each names a keystream word with `difficulty` leading zero bits.
pub open spec fn proves_work(offsets: Seq<u32>, nonce: Seq<u8>, difficulty: u32) -> bool {
    &&& offsets.len() == NUM_SOLUTION_OFFSETS
    &&& forall|i: int, j: int| 0 <= i < j < offsets.len() ==> offsets[i] < offsets[j]
    &&& forall|i: int|
        0 <= i < offsets.len() ==> u32_leading_zeros(puzzle_word(nonce, #[trigger] offsets[i]))
            >= difficulty
}

/// The number whose bytes are given, the lowest first.
fn word_of(bytes: &[u8; 4]) -> (r: u32)
    ensures
        r == le_word(*bytes),
{
    bytes[0] as u32 + bytes[1] as u32 * 0x100 + bytes[2] as u32 * 0x1_0000 + bytes[3] as u32
        * 0x100_0000
}

/// Whether every number is smaller than the next one.
fn strictly_increasing(offsets: &Vec<u32>) -> (r: bool)
    ensures
        r == (forall|i: int, j: int| 0 <= i < j < offsets@.len() ==> offsets@[i] < offsets@[j]),
{
    let mut n: usize = 1;
    while n < offsets.len()
        invariant
            1 <= n,
            forall|i: int, j: int|
                0 <= i < j < n && j < offsets@.len() ==> offsets@[i] < offsets@[j],
        decreases offsets@.len() - n,
    {
        if offsets[n - 1] >= offsets[n] {
            assert(!(offsets@[n - 1] < offsets@[n as int]));
            return false;
        }
        n += 1;
    }
    true
}

impl Solution {
    /// Checks just the proof of work in a solution, not the age of the puzzle.
    pub fn verify_proof_of_work(&self, puzzle_nonce: &[u8; 32], difficulty: u32) -> (r: bool)
        ensures
            r == proves_work(self.offsets@, puzzle_nonce@, difficulty),
    {
        if self.offsets.len() != NUM_SOLUTION_OFFSETS {
            return false;
        }
        if !strictly_increasing(&self.offsets) {
            return false;
        }
        let mut i: usize = 0;
        while i < self.offsets.len()
            invariant
                i <= self.offsets@.len(),
                forall|k: int|
                    0 <= k < i ==> u32_leading_zeros(
                        puzzle_word(puzzle_nonce@, #[trigger] self.offsets@[k]),
                    ) >= difficulty,
            decreases self.offsets@.len() - i,
        {
            let bytes = keystream_at(puzzle_nonce, self.offsets[i] as u64 * 4);
            let word = word_of(&bytes);
            assert(word == puzzle_word(puzzle_nonce@, self.offsets@[i as int]));
            if word.leading_zeros() < difficulty {
                return false;
            }
            i += 1;
        }
        true
    }
}

/// A proof of work for one difficulty is a proof for every lower one.
pub proof fn law_harder_work_proves_easier(
    offsets: Seq<u32>,
    nonce: Seq<u8>,
    hard: u32,
    easy: u32,
)
    requires
        easy <= hard,
        proves_work(offsets, nonce, hard),
    ensures
        proves_work(offsets, nonce, easy),
{
}

/// No offset can be used twice in a proof of work.
pub proof fn law_offsets_are_distinct(
    offsets: Seq<u32>,
    nonce: Seq<u8>,
    difficulty: u32,
    i: int,
    j: int,
)
    requires
        proves_work(offsets, nonce, difficulty),
        0 <= i < offsets.len(),
        0 <= j < offsets.len(),
        i != j,
    ensures
        offsets[i] != offsets[j],
{
    if i < j {
        assert(offsets[i] < offsets[j]);
    } else {
        assert(offsets[j] < offsets[i]);
    }
}

// ------------------------------------------------------------------------------------------
// The authenticator
// ------------------------------------------------------------------------------------------

/// The context under which the root key is derived from the configured secret.
pub open spec fn root_context() -> Seq<char> {
    "[github/cmounce/heavy] [2026-04-10T03:24:16Z] MAC keys"@
}

/// State for working with puzzles and tokens. It does not change after it is made, so it can be
/// shared and copied.
#[derive(Clone, Copy)]
pub struct Authenticator {
    puzzle_key: [u8; 32],
    token_key: [u8; 32],
    difficulty: u32,
    token_lifetime: u64,
}

impl Authenticator {
    /// The key that makes nonces specific to this instance.
    pub closed spec fn nonce_key(self) -> Seq<u8> {
        self.puzzle_key@
    }

    /// The key that signs tokens.
    pub closed spec fn signing_key(self) -> Seq<u8> {
        self.token_key@
    }

    /// Leading zero bits that a keystream word of a solution needs.
    pub closed spec fn work(self) -> u32 {
        self.difficulty
    }

    /// Seconds for which a token is valid.
    pub closed spec fn lifetime(self) -> u64 {
        self.token_lifetime
    }

    /// Whether both keys are derived from the given secret, by way of one root key.
    pub open spec fn is_keyed_by(self, secret: Seq<char>) -> bool {
        let root = blake3_derived_key(root_context(), encode_utf8(secret))@;
        &&& self.nonce_key() == blake3_derived_key("puzzle"@, root)@
        &&& self.signing_key() == blake3_derived_key("token"@, root)@
    }

    /// The nonce of the puzzle for a client at a time.
    pub open spec fn nonce(self, timestamp: u64, ip: Seq<u8>, ua: Seq<char>) -> [u8; 32] {
        blake3_keyed_hash(self.nonce_key(), fingerprint_bytes(timestamp, ip, ua))
    }

    /// The signature of the token for a client at a time.
    pub open spec fn signature(self, timestamp: u64, ip: Seq<u8>, ua: Seq<char>) -> [u8; 32] {
        blake3_keyed_hash(self.signing_key(), fingerprint_bytes(timestamp, ip, ua))
    }

    /// The puzzle for a client at a time: timestamp, difficulty and nonce, with dots between.
    pub open spec fn puzzle(self, timestamp: u64, ip: Seq<u8>, ua: Seq<char>) -> Seq<char> {
        digits(timestamp as int, 10) + seq!['.'] + digits(self.work() as int, 10) + seq!['.']
            + hex_text(self.nonce(timestamp, ip, ua)@)
    }

    /// The token for a client at a time: timestamp and signature, with a dot between.
    pub open spec fn token(self, timestamp: u64, ip: Seq<u8>, ua: Seq<char>) -> Seq<char> {
        digits(timestamp as int, 16) + seq!['.'] + hex_text(self.signature(timestamp, ip, ua)@)
    }

    /// Whether a token is valid for a client at a reading of the clock: it holds a fresh timestamp
    /// and the signature that belongs to that timestamp and that client.
    pub open spec fn accepts(
        self,
        now: Option<ClockReading>,
        ip: Seq<u8>,
        ua: Seq<char>,
        token: Seq<char>,
    ) -> bool {
        match split_once(token, '.') {
            Some((stamp, signature)) => match number(stamp, 16, u64::MAX as int) {
                Some(ts) => {
                    &&& fresh(now, ts as u64, self.lifetime())
                    &&& hex_bytes(signature, 32) == Some(self.signature(ts as u64, ip, ua)@)
                },
                None => false,
            },
            None => false,
        }
    }

    /// The token that a solution earns at a reading of the clock. `None` as the solution stands for
    /// a submission that could not be read.
    pub open spec fn redeems(
        self,
        now: Option<ClockReading>,
        ip: Seq<u8>,
        ua: Seq<char>,
        solution: Option<Solution>,
    ) -> Option<Seq<char>> {
        match solution {
            Some(s) => if fresh(now, s.timestamp, PUZZLE_LIFETIME) && proves_work(
                s.offsets@,
                self.nonce(s.timestamp, ip, ua)@,
                self.work(),
            ) {
                Some(self.token(s.timestamp, ip, ua))
            } else {
                None
            },
            None => None,
        }
    }

    /// Derives the keys from the secret. The lifetime of tokens is in seconds.
    pub fn new(secret: &str, difficulty: u32, token_lifetime: u64) -> (r: Self)
        ensures
            r.is_keyed_by(secret@),
            r.work() == difficulty,
            r.lifetime() == token_lifetime,
    {
        let key = derive_key(
            "[github/cmounce/heavy] [2026-04-10T03:24:16Z] MAC keys",
            secret.as_bytes(),
        );
        Authenticator {
            puzzle_key: derive_key("puzzle", key.as_slice()),
            token_key: derive_key("token", key.as_slice()),
            difficulty,
            token_lifetime,
        }
    }

    /// The puzzle for a client at the given second.
    ///
    /// It holds everything that the client needs to solve it, and its nonce ties it to the
    /// address and user agent of the client.
    pub fn make_puzzle_at(&self, ts: u64, ip: IpAddr, ua: &str) -> (r: String)
        ensures
            r@ == self.puzzle(ts, ip@, ua@),
    {
        let nonce = self.puzzle_nonce(&Fingerprint::new(ts, ip, ua));
        let mut r = decimal(ts);
        r.push('.');
        push_text(&mut r, decimal(self.difficulty as u64).as_str());
        r.push('.');
        push_text(&mut r, hex_encode(nonce.as_slice()).as_str());
        assert(r@ =~= self.puzzle(ts, ip@, ua@));
        r
    }

    /// Makes a puzzle for the client to solve, with the current second as its timestamp.
    pub fn make_puzzle(&self, ip: IpAddr, ua: &str) -> (r: String)
        ensures
            exists|now: Option<ClockReading>| #[trigger]
                is_reading(now) && r@ == self.puzzle(whole_secs(now), ip@, ua@),
    {
        let now = now();
        self.make_puzzle_at(epoch_secs(now), ip, ua)
    }

    /// Exchanges a solution for a token, at the given reading of the clock.
    pub fn redeem_solution_at(
        &self,
        now: Option<ClockReading>,
        ip: IpAddr,
        ua: &str,
        solution: Option<Solution>,
    ) -> (r: Option<String>)
        ensures
            match r {
                Some(token) => self.redeems(now, ip@, ua@, solution) == Some(token@),
                None => self.redeems(now, ip@, ua@, solution) is None,
            },
    {
        let solution = match solution {
            Some(s) => s,
            None => {
                return None;
            },
        };
        let ts = solution.timestamp;
        if !is_fresh_at(now, ts, PUZZLE_LIFETIME) {
            return None;
        }
        // The nonce is derived again: the client is not trusted to send the one it was given.
        let fingerprint = Fingerprint::new(ts, ip, ua);
        let nonce = self.puzzle_nonce(&fingerprint);
        if solution.verify_proof_of_work(&nonce, self.difficulty) {
            // The token bears the timestamp of the puzzle, so one solution earns one token.
            Some(self.mint_token(&fingerprint))
        } else {
            None
        }
    }

    /// Checks a solution and exchanges it for a signed token if it is correct.
    ///
    /// Returns `None` on failure. All failures are alike: a submission that could not be read, an
    /// expired puzzle, the puzzle of another client, an invalid solution.
    pub fn redeem_solution(&self, ip: IpAddr, ua: &str, solution: Option<Solution>) -> (r: Option<
        String,
    >)
        ensures
            exists|now: Option<ClockReading>| #[trigger]
                is_reading(now) && match r {
                    Some(token) => self.redeems(now, ip@, ua@, solution) == Some(token@),
                    None => self.redeems(now, ip@, ua@, solution) is None,
                },
    {
        let now = now();
        self.redeem_solution_at(now, ip, ua, solution)
    }

    /// Whether a token is valid for a client at the given reading of the clock.
    pub fn verify_token_at(
        &self,
        now: Option<ClockReading>,
        ip: IpAddr,
        ua: &str,
        token: &str,
    ) -> (r: bool)
        ensures
            r == self.accepts(now, ip@, ua@, token@),
    {
        let token = chars_of(token);
        let (stamp, signature) = match cut_once(&token, '.') {
            Some(parts) => parts,
            None => {
                return false;
            },
        };
        let ts = match parse_number(stamp, 16, u64::MAX) {
            Some(ts) => ts,
            None => {
                return false;
            },
        };
        if !is_fresh_at(now, ts, self.token_lifetime) {
            return false;
        }
        let actual = match hash_of_text(text_of(signature).as_str()) {
            Some(hash) => hash,
            None => {
                return false;
            },
        };
        let expected = self.token_mac(&Fingerprint::new(ts, ip, ua));
        same_hash(&expected, &actual)
    }

    /// Whether a token from a client's cookie is valid now.
    pub fn verify_token(&self, ip: IpAddr, ua: &str, token: &str) -> (r: bool)
        ensures
            exists|now: Option<ClockReading>| #[trigger]
                is_reading(now) && r == self.accepts(now, ip@, ua@, token@),
    {
        let now = now();
        self.verify_token_at(now, ip, ua, token)
    }

    /// The token for a fingerprint, whose timestamp should be that of the puzzle.
    pub fn mint_token(&self, fingerprint: &Fingerprint) -> (r: String)
        ensures
            r@ == self.token(fingerprint.timestamp, fingerprint.ip@, fingerprint.user_agent@),
    {
        let mut r = hexadecimal(fingerprint.timestamp);
        r.push('.');
        let mac = self.token_mac(fingerprint);
        push_text(&mut r, hash_text(&mac).as_str());
        assert(r@ =~= self.token(fingerprint.timestamp, fingerprint.ip@, fingerprint.user_agent@));
        r
    }

    /// The nonce of the puzzle for a fingerprint.
    pub fn puzzle_nonce(&self, client: &Fingerprint) -> (r: [u8; 32])
        ensures
            r == self.nonce(client.timestamp, client.ip@, client.user_agent@),
    {
        client.keyed_hash(&self.puzzle_key)
    }

    /// The signature of the token for a fingerprint.
    pub fn token_mac(&self, client: &Fingerprint) -> (r: [u8; 32])
        ensures
            r == self.signature(client.timestamp, client.ip@, client.user_agent@),
    {
        client.keyed_hash(&self.token_key)
    }
}

// ------------------------------------------------------------------------------------------
// Laws
// ------------------------------------------------------------------------------------------

/// The first dot stands behind a text of digits.
proof fn lemma_cut_behind_digits(n: u64, base: int, rest: Seq<char>)
    requires
        2 <= base <= 16,
    ensures
        first_of(digits(n as int, base) + seq!['.'] + rest, seq!['.']) == digits(n as int, base).len(),
        split_once(digits(n as int, base) + seq!['.'] + rest, '.') == Some(
            (digits(n as int, base), rest),
        ),
{
    let d = digits(n as int, base);
    let s = d + seq!['.'] + rest;
    let dot = seq!['.'];
    lemma_digits(n as int, base);
    assert(dot[0] == '.');
    assert forall|i: int| 0 <= i < d.len() implies !dot.contains(#[trigger] s[i]) by {
        assert(s[i] == d[i]);
    }
    assert(s[d.len() as int] == '.');
    lemma_first_of_unique(s, dot, d.len() as int);
    assert(s.take(d.len() as int) =~= d);
    assert(s.skip(d.len() as int + 1) =~= rest);
}

/// A minted token is accepted from the client it was minted for, as long as its timestamp is fresh,
/// and no longer.
pub proof fn law_minted_token_is_accepted_while_fresh(
    auth: Authenticator,
    now: Option<ClockReading>,
    ts: u64,
    ip: Seq<u8>,
    ua: Seq<char>,
)
    ensures
        auth.accepts(now, ip, ua, auth.token(ts, ip, ua)) == fresh(now, ts, auth.lifetime()),
{
    let signature = auth.signature(ts, ip, ua);
    lemma_cut_behind_digits(ts, 16, hex_text(signature@));
    lemma_number_of_digits(ts as int, 16, u64::MAX as int);
    lemma_hex_bytes_of_text(signature@);
}

/// The token that a solution earns is accepted from the client that sent the solution, as long as
/// the timestamp of the puzzle is fresh.
pub proof fn law_redeemed_token_is_accepted(
    auth: Authenticator,
    redeemed_at: Option<ClockReading>,
    used_at: Option<ClockReading>,
    ip: Seq<u8>,
    ua: Seq<char>,
    solution: Solution,
)
    requires
        auth.redeems(redeemed_at, ip, ua, Some(solution)) is Some,
    ensures
        auth.accepts(
            used_at,
            ip,
            ua,
            auth.redeems(redeemed_at, ip, ua, Some(solution)).unwrap(),
        ) == fresh(used_at, solution.timestamp, auth.lifetime()),
{
    law_minted_token_is_accepted_while_fresh(auth, used_at, solution.timestamp, ip, ua);
}

/// Redeeming is deterministic: however often and with whatever offsets the puzzle of a client is
/// redeemed, it earns one and the same token.
pub proof fn law_one_puzzle_earns_one_token(
    auth: Authenticator,
    first_at: Option<ClockReading>,
    second_at: Option<ClockReading>,
    ip: Seq<u8>,
    ua: Seq<char>,
    first: Solution,
    second: Solution,
)
    requires
        first.timestamp == second.timestamp,
        auth.redeems(first_at, ip, ua, Some(first)) is Some,
        auth.redeems(second_at, ip, ua, Some(second)) is Some,
    ensures
        auth.redeems(first_at, ip, ua, Some(first)) == auth.redeems(
            second_at,
            ip,
            ua,
            Some(second),
        ),
{
}

/// A token is tied to its client: where the token of one client is accepted from a client with
/// another address or user agent, the keyed hash has a collision.
pub proof fn law_foreign_token_needs_collision(
    auth: Authenticator,
    now: Option<ClockReading>,
    ts: u64,
    ip: Seq<u8>,
    ua: Seq<char>,
    other_ip: Seq<u8>,
    other_ua: Seq<char>,
)
    requires
        is_address(ip),
        is_address(other_ip),
        ip != other_ip || ua != other_ua,
        auth.accepts(now, other_ip, other_ua, auth.token(ts, ip, ua)),
    ensures
        fingerprint_bytes(ts, ip, ua) != fingerprint_bytes(ts, other_ip, other_ua),
        blake3_keyed_hash(auth.signing_key(), fingerprint_bytes(ts, ip, ua))@ == blake3_keyed_hash(
            auth.signing_key(),
            fingerprint_bytes(ts, other_ip, other_ua),
        )@,
{
    let signature = auth.signature(ts, ip, ua);
    lemma_cut_behind_digits(ts, 16, hex_text(signature@));
    lemma_number_of_digits(ts as int, 16, u64::MAX as int);
    lemma_hex_bytes_of_text(signature@);
    if fingerprint_bytes(ts, ip, ua) == fingerprint_bytes(ts, other_ip, other_ua) {
        law_fingerprint_is_unambiguous(ts, ip, ua, ts, other_ip, other_ua);
    }
}

/// A puzzle tells the client all that redeeming will ask for: its three parts read back as the
/// timestamp, the difficulty and the nonce, and a solution with that timestamp is redeemed exactly
/// where it is fresh and proves that much work on that nonce.
pub proof fn law_puzzle_tells_what_redeeming_asks(
    auth: Authenticator,
    now: Option<ClockReading>,
    ip: Seq<u8>,
    ua: Seq<char>,
    solution: Solution,
)
    ensures
        ({
            let ts = solution.timestamp;
            let parts = split(auth.puzzle(ts, ip, ua), seq!['.']);
            &&& parts.len() == 3
            &&& number(parts[0], 10, u64::MAX as int) == Some(ts as int)
            &&& number(parts[1], 10, u32::MAX as int) == Some(auth.work() as int)
            &&& hex_bytes(parts[2], 32) == Some(auth.nonce(ts, ip, ua)@)
            &&& auth.redeems(now, ip, ua, Some(solution)) is Some <==> fresh(
                now,
                ts,
                PUZZLE_LIFETIME,
            ) && proves_work(
                solution.offsets@,
                hex_bytes(parts[2], 32).unwrap(),
                number(parts[1], 10, u32::MAX as int).unwrap() as u32,
            )
        }),
{
    let ts = solution.timestamp;
    let nonce = auth.nonce(ts, ip, ua)@;
    let dot = seq!['.'];
    let a = digits(ts as int, 10);
    let b = digits(auth.work() as int, 10);
    let c = hex_text(nonce);
    let tail = b + dot + c;
    let s = auth.puzzle(ts, ip, ua);
    assert(s =~= a + dot + tail);
    lemma_cut_behind_digits(ts, 10, tail);
    lemma_cut_behind_digits(auth.work() as u64, 10, c);
    assert(tail.take(b.len() as int) =~= b);
    assert(tail.skip(b.len() as int + 1) =~= c);
    assert(s.take(a.len() as int) =~= a);
    assert(s.skip(a.len() as int + 1) =~= tail);
    assert forall|i: int| 0 <= i < c.len() implies !dot.contains(#[trigger] c[i]) by {
        let x = nonce[i / 2] as int;
        assert(0 <= x / 16 < 16 && 0 <= x % 16 < 16);
        assert(dot[0] == '.');
    }
    lemma_first_of_unique(c, dot, c.len() as int);
    assert(split(c, dot) == seq![c]);
    assert(split(tail, dot) == seq![b] + split(c, dot));
    assert(split(s, dot) == seq![a] + split(tail, dot));
    assert(split(s, dot) =~= seq![a, b, c]);
    lemma_number_of_digits(ts as int, 10, u64::MAX as int);
    lemma_number_of_digits(auth.work() as int, 10, u32::MAX as int);
    lemma_hex_bytes_of_text(nonce);
}

/// Expired puzzles, and puzzles from the future, earn nothing.
pub proof fn law_stale_puzzle_earns_nothing(
    auth: Authenticator,
    now: ClockReading,
    ip: Seq<u8>,
    ua: Seq<char>,
    solution: Solution,
)
    requires
        now.wf(),
        now.secs > solution.timestamp + PUZZLE_LIFETIME || now.secs < solution.timestamp,
    ensures
        auth.redeems(Some(now), ip, ua, Some(solution)) is None,
{
}

/// Tokens survive a restart: what holds of a token does not depend on the instance, only on the
/// secret and the lifetime that it was configured with.
pub proof fn law_tokens_survive_a_restart(
    before: Authenticator,
    after: Authenticator,
    secret: Seq<char>,
    now: Option<ClockReading>,
    ts: u64,
    ip: Seq<u8>,
    ua: Seq<char>,
    token: Seq<char>,
)
    requires
        before.is_keyed_by(secret),
        after.is_keyed_by(secret),
        before.lifetime() == after.lifetime(),
    ensures
        before.token(ts, ip, ua) == after.token(ts, ip, ua),
        before.accepts(now, ip, ua, token) == after.accepts(now, ip, ua, token),
{
}

/// What is hashed of a client is one message: the eight bytes of the timestamp, the lowest first,
/// the digit of the address family, the octets of the address, and the whole user agent in UTF-8.
pub proof fn law_client_is_hashed_as_one_message(
    client: Fingerprint,
    key: [u8; 32],
    hash: [u8; 32],
)
    requires
        call_ensures(Fingerprint::keyed_hash, (&client, &key), hash),
    ensures
        ({
            let ts = client.timestamp as int;
            let stamp = seq![
                (ts % 0x100) as u8,
                (ts / 0x100 % 0x100) as u8,
                (ts / 0x1_0000 % 0x100) as u8,
                (ts / 0x100_0000 % 0x100) as u8,
                (ts / 0x1_0000_0000 % 0x100) as u8,
                (ts / 0x100_0000_0000 % 0x100) as u8,
                (ts / 0x1_0000_0000_0000 % 0x100) as u8,
                (ts / 0x100_0000_0000_0000 % 0x100) as u8,
            ];
            let address = match client.ip {
                IpAddr::V4(octets) => seq![52u8] + octets@,
                IpAddr::V6(octets) => seq![54u8] + octets@,
            };
            let message = stamp + address + encode_utf8(client.user_agent@);
            &&& client.bytes() == message
            &&& hash == blake3_keyed_hash(key@, message)
        }),
{
    let ts = client.timestamp as int;
    let stamp = seq![
        (ts % 0x100) as u8,
        (ts / 0x100 % 0x100) as u8,
        (ts / 0x1_0000 % 0x100) as u8,
        (ts / 0x100_0000 % 0x100) as u8,
        (ts / 0x1_0000_0000 % 0x100) as u8,
        (ts / 0x100_0000_0000 % 0x100) as u8,
        (ts / 0x1_0000_0000_0000 % 0x100) as u8,
        (ts / 0x100_0000_0000_0000 % 0x100) as u8,
    ];
    reveal_with_fuel(le_bytes, 9);
    assert(le_bytes(ts, 8) =~= stamp);
    let address = match client.ip {
        IpAddr::V4(octets) => seq![52u8] + octets@,
        IpAddr::V6(octets) => seq![54u8] + octets@,
    };
    assert(client.bytes() =~= stamp + address + encode_utf8(client.user_agent@));
}

/// A solution proves the work exactly where it has ten offsets, each greater than the one before,
/// and each of them, in the whole range of offsets, names a word of the keystream with enough
/// leading zero bits: the number in the four bytes from four times the offset on, the lowest first.
pub proof fn law_offsets_name_keystream_words(
    solution: Solution,
    nonce: [u8; 32],
    difficulty: u32,
    r: bool,
)
    requires
        call_ensures(Solution::verify_proof_of_work, (&solution, &nonce, difficulty), r),
    ensures
        r <==> {
            let offsets = solution.offsets@;
            &&& offsets.len() == 10
            &&& forall|i: int, j: int| 0 <= i < j < 10 ==> offsets[i] < offsets[j]
            &&& forall|i: int|
                0 <= i < 10 ==> {
                    let b = chacha8_keystream(nonce@, (4 * #[trigger] offsets[i]) as u64);
                    u32_leading_zeros(
                        (b[0] + 0x100 * b[1] + 0x1_0000 * b[2] + 0x100_0000 * b[3]) as u32,
                    ) >= difficulty
                }
        },
{
    let offsets = solution.offsets@;
    assert forall|i: int| 0 <= i < offsets.len() implies {
        let b = chacha8_keystream(nonce@, (4 * #[trigger] offsets[i]) as u64);
        puzzle_word(nonce@, offsets[i]) == (b[0] + 0x100 * b[1] + 0x1_0000 * b[2] + 0x100_0000
            * b[3]) as u32
    } by {
        assert((4 * offsets[i]) as u64 == (offsets[i] * 4) as u64);
    }
}

/// Enough leading zero bits are those of a small number: at a difficulty of no more than a word,
/// the words that count are those below two to the power of the bits that are left.
pub proof fn law_difficulty_bounds_the_word(word: u32, difficulty: u32)
    requires
        difficulty <= 32,
    ensures
        u32_leading_zeros(word) >= difficulty <==> (word as u64) < (1u64 << (32 - difficulty) as u64),
{
    vstd::std_specs::bits::axiom_u32_leading_zeros(word);
    let z = u32_leading_zeros(word);
    assert(z < 32 && (word >> ((31 - z) as u32)) & 1u32 != 0u32 ==> (word as u64) >= (1u64 << (31
        - z) as u64)) by (bit_vector)
        requires
            z <= 32,
    ;
    assert(word >> ((32 - z) as u32) == 0u32 ==> (word as u64) < (1u64 << (32 - z) as u64))
        by (bit_vector)
        requires
            z <= 32,
    ;
    assert(z >= difficulty ==> (1u64 << (32 - z) as u64) <= (1u64 << (32 - difficulty) as u64))
        by (bit_vector)
        requires
            z <= 32,
            difficulty <= 32,
    ;
    assert(z < difficulty ==> (1u64 << (31 - z) as u64) >= (1u64 << (32 - difficulty) as u64))
        by (bit_vector)
        requires
            z <= 32,
            difficulty <= 32,
    ;
}

/// Both keys come from the whole secret, under contexts of their own, and the difficulty and the
/// lifetime are those that are given.
pub proof fn law_keys_come_from_the_secret(
    secret: &str,
    difficulty: u32,
    token_lifetime: u64,
    auth: Authenticator,
)
    requires
        call_ensures(Authenticator::new, (secret, difficulty, token_lifetime), auth),
    ensures
        ({
            let root = blake3_derived_key(
                "[github/cmounce/heavy] [2026-04-10T03:24:16Z] MAC keys"@,
                encode_utf8(secret@),
            )@;
            &&& auth.nonce_key() == blake3_derived_key("puzzle"@, root)@
            &&& auth.signing_key() == blake3_derived_key("token"@, root)@
        }),
        auth.work() == difficulty,
        auth.lifetime() == token_lifetime,
{
}

/// A puzzle is the timestamp, the difficulty and the nonce of the client, a token the timestamp and
/// the signature of the client, with dots between; nonce and signature are hashes of one message
/// under keys of their own.
pub proof fn law_puzzles_and_tokens_are_written(
    auth: Authenticator,
    client: Fingerprint,
    nonce: [u8; 32],
    signature: [u8; 32],
    puzzle: String,
    token: String,
)
    requires
        call_ensures(Authenticator::puzzle_nonce, (&auth, &client), nonce),
        call_ensures(Authenticator::token_mac, (&auth, &client), signature),
        call_ensures(
            Authenticator::make_puzzle_at,
            (&auth, client.timestamp, client.ip, client.user_agent),
            puzzle,
        ),
        call_ensures(Authenticator::mint_token, (&auth, &client), token),
    ensures
        nonce == blake3_keyed_hash(auth.nonce_key(), client.bytes()),
        signature == blake3_keyed_hash(auth.signing_key(), client.bytes()),
        puzzle@ == digits(client.timestamp as int, 10) + seq!['.'] + digits(auth.work() as int, 10)
            + seq!['.'] + hex_text(nonce@),
        token@ == digits(client.timestamp as int, 16) + seq!['.'] + hex_text(signature@),
{
}

/// A token is accepted exactly where what stands before its first dot is a hexadecimal number, a
/// timestamp that is fresh for the lifetime of tokens, and what stands behind the dot is the whole
/// signature of that timestamp and the client, in hexadecimal.
pub proof fn law_accepted_tokens_are_signed_and_fresh(
    auth: Authenticator,
    now: Option<ClockReading>,
    ip: IpAddr,
    ua: &str,
    token: &str,
    r: bool,
)
    requires
        call_ensures(Authenticator::verify_token_at, (&auth, now, ip, ua, token), r),
    ensures
        r <==> exists|n: int, ts: u64|
            {
                &&& 0 <= n < token@.len()
                &&& #[trigger] token@[n] == '.'
                &&& !token@.take(n).contains('.')
                &&& number(token@.take(n), 16, 0xffff_ffff_ffff_ffff) == Some(ts as int)
                &&& #[trigger] fresh(now, ts, auth.lifetime())
                &&& hex_bytes(token@.skip(n + 1), 32) == Some(
                    blake3_keyed_hash(
                        auth.signing_key(),
                        (Fingerprint { timestamp: ts, ip, user_agent: ua }).bytes(),
                    )@,
                )
            },
{
    let s = token@;
    let dot = seq!['.'];
    let m = first_of(s, dot);
    crate::text::lemma_first_of(s, dot);
    assert(dot[0] == '.');
    if r {
        let ts = number(s.take(m), 16, u64::MAX as int).unwrap();
        crate::numbers::law_only_digits_make_a_number(s.take(m), 16, u64::MAX as int);
        assert(s[m] == '.') by {
            assert(dot.contains(s[m]));
        }
        assert(!s.take(m).contains('.')) by {
            if s.take(m).contains('.') {
                let k = choose|k: int| 0 <= k < m && s.take(m)[k] == '.';
                assert(!dot.contains(s[k]));
            }
        }
        assert(fresh(now, ts as u64, auth.lifetime()));
    }
    if exists|n: int, ts: u64|
        {
            &&& 0 <= n < s.len()
            &&& #[trigger] s[n] == '.'
            &&& !s.take(n).contains('.')
            &&& number(s.take(n), 16, 0xffff_ffff_ffff_ffff) == Some(ts as int)
            &&& #[trigger] fresh(now, ts, auth.lifetime())
            &&& hex_bytes(s.skip(n + 1), 32) == Some(
                blake3_keyed_hash(
                    auth.signing_key(),
                    (Fingerprint { timestamp: ts, ip, user_agent: ua }).bytes(),
                )@,
            )
        } {
        let (n, ts) = choose|n: int, ts: u64|
            {
                &&& 0 <= n < s.len()
                &&& #[trigger] s[n] == '.'
                &&& !s.take(n).contains('.')
                &&& number(s.take(n), 16, 0xffff_ffff_ffff_ffff) == Some(ts as int)
                &&& #[trigger] fresh(now, ts, auth.lifetime())
                &&& hex_bytes(s.skip(n + 1), 32) == Some(
                    blake3_keyed_hash(
                        auth.signing_key(),
                        (Fingerprint { timestamp: ts, ip, user_agent: ua }).bytes(),
                    )@,
                )
            };
        assert forall|k: int| 0 <= k < n implies !dot.contains(#[trigger] s[k]) by {
            assert(s.take(n)[k] == s[k]);
            assert(s.take(n).contains(s[k]));
        }
        lemma_first_of_unique(s, dot, n);
        assert(n == m);
    }
}

/// A solution earns a token exactly where it could be read, its puzzle is from no more than five
/// minutes ago and not from the future, and it proves the work on the nonce that belongs to the
/// client and that timestamp. The token is that of the client and the timestamp of the puzzle.
pub proof fn law_solutions_earn_tokens(
    auth: Authenticator,
    now: Option<ClockReading>,
    ip: IpAddr,
    ua: &str,
    solution: Option<Solution>,
    r: Option<String>,
    proven: bool,
    minted: String,
)
    requires
        now matches Some(t) ==> t.nanos < 1_000_000_000,
        call_ensures(Authenticator::redeem_solution_at, (&auth, now, ip, ua, solution), r),
        solution matches Some(s) ==> {
            let client = Fingerprint { timestamp: s.timestamp, ip, user_agent: ua };
            &&& call_ensures(
                Solution::verify_proof_of_work,
                (&s, &blake3_keyed_hash(auth.nonce_key(), client.bytes()), auth.work()),
                proven,
            )
            &&& call_ensures(Authenticator::mint_token, (&auth, &client), minted)
        },
    ensures
        r is Some <==> {
            &&& solution is Some
            &&& now is Some
            &&& proven
            &&& now.unwrap().secs >= solution.unwrap().timestamp
            &&& {
                ||| now.unwrap().secs - solution.unwrap().timestamp < 300
                ||| now.unwrap().secs - solution.unwrap().timestamp == 300 && now.unwrap().nanos
                    == 0
            }
        },
        r matches Some(token) ==> token@ == minted@,
{
}

/// Without a reading at hand the clock is asked: what is made, redeemed or accepted is that of some
/// reading.
pub proof fn law_clock_is_asked(
    auth: Authenticator,
    ip: IpAddr,
    ua: &str,
    token: &str,
    solution: Option<Solution>,
    puzzle: String,
    redeemed: Option<String>,
    accepted: bool,
)
    requires
        call_ensures(Authenticator::make_puzzle, (&auth, ip, ua), puzzle),
        call_ensures(Authenticator::redeem_solution, (&auth, ip, ua, solution), redeemed),
        call_ensures(Authenticator::verify_token, (&auth, ip, ua, token), accepted),
    ensures
        exists|now: Option<ClockReading>| #[trigger]
            is_reading(now) && puzzle@ == auth.puzzle(whole_secs(now), ip@, ua@),
        exists|now: Option<ClockReading>| #[trigger]
            is_reading(now) && match redeemed {
                Some(t) => auth.redeems(now, ip@, ua@, solution) == Some(t@),
                None => auth.redeems(now, ip@, ua@, solution) is None,
            },
        exists|now: Option<ClockReading>| #[trigger]
            is_reading(now) && accepted == auth.accepts(now, ip@, ua@, token@),
{
}

} // verus!
