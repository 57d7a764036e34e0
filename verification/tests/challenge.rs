use chacha20::cipher::{KeyIvInit, StreamCipher};
use heavy::challenge::{Authenticator, Fingerprint, Solution, NUM_SOLUTION_OFFSETS};
use heavy::clock::{epoch_secs, is_fresh, is_fresh_at, now, now_secs, ClockReading};
use heavy::ip::IpAddr;

const TEST_IP: IpAddr = IpAddr::V4([10, 0, 0, 1]);
const TEST_UA: &str = "some-client/1.0";

fn make_auth() -> Authenticator {
    // At difficulty 6 and ten offsets, a random solution is right by accident once in 2^60 times,
    // and a solution takes about 640 words of keystream to find.
    let difficulty = 6;
    Authenticator::new("some-passphrase", difficulty, 60)
}

/// Solves a puzzle the way a client does.
fn solve_puzzle(puzzle: &str) -> (u64, Vec<u32>) {
    let parts: Vec<&str> = puzzle.splitn(3, '.').collect();
    let ts: u64 = parts[0].parse().unwrap();
    let difficulty: u32 = parts[1].parse().unwrap();
    let nonce: [u8; 32] = hex::decode(parts[2]).unwrap().try_into().unwrap();

    let mut offsets = Vec::new();
    let mut cipher = chacha20::ChaCha8::new((&nonce).into(), &Default::default());
    'outer: for counter in 0u32.. {
        let mut block = [0u8; 64];
        cipher.apply_keystream(&mut block);
        for (i, chunk) in block.chunks(4).enumerate() {
            let word = u32::from_le_bytes(chunk.try_into().unwrap());
            if word.leading_zeros() >= difficulty {
                offsets.push(counter * 16 + i as u32);
                if offsets.len() == NUM_SOLUTION_OFFSETS {
                    break 'outer;
                }
            }
        }
    }

    (ts, offsets)
}

#[test]
fn test_happy_path() {
    // Generate and solve a puzzle
    let auth = make_auth();
    let puzzle = auth.make_puzzle(TEST_IP, TEST_UA);
    let (ts, offsets) = solve_puzzle(&puzzle);

    // Exchange it for a token
    let solution = Solution { timestamp: ts, offsets };
    let token = auth
        .redeem_solution(TEST_IP, TEST_UA, Some(solution))
        .unwrap();

    // Verify the token
    assert!(auth.verify_token(TEST_IP, TEST_UA, &token));
}

#[test]
fn test_is_fresh() {
    let now = now_secs();
    let a_minute = 60;
    assert!(!is_fresh(now - 61, a_minute)); // INVALID: definitely too old
    assert!(is_fresh(now - 59, a_minute)); // almost too old
    assert!(is_fresh(now - 30, a_minute));
    assert!(is_fresh(now, a_minute)); // brand new
    assert!(!is_fresh(now + 1, a_minute)); // INVALID: from the future
}

#[test]
fn fingerprint_is_hashed_as_one_message() {
    let fp = Fingerprint::new(1, TEST_IP, TEST_UA);
    let mut bytes = vec![1u8, 0, 0, 0, 0, 0, 0, 0, b'4', 10, 0, 0, 1];
    bytes.extend_from_slice(TEST_UA.as_bytes());
    let key = [7u8; 32];
    assert_eq!(fp.keyed_hash(&key), *blake3::keyed_hash(&key, &bytes).as_bytes());
}

#[test]
fn test_invalid_solutions() {
    // Generate and solve a puzzle
    let auth = make_auth();
    let puzzle = auth.make_puzzle(TEST_IP, TEST_UA);
    let (ts, offsets) = solve_puzzle(&puzzle);

    // Sanity check: make sure it's valid as it currently is
    let redeem = |ip: IpAddr, ua: &str, (ts, offsets): (u64, &[u32])| {
        let solution = Solution { timestamp: ts, offsets: offsets.to_vec() };
        auth.redeem_solution(ip, ua, Some(solution))
    };
    assert!(redeem(TEST_IP, TEST_UA, (ts, &offsets)).is_some());

    // Make sure it becomes invalid when we break the rules
    let other_ip = IpAddr::V4([12, 34, 56, 78]);
    assert!(redeem(other_ip, TEST_UA, (ts, &offsets)).is_none());
    assert!(redeem(TEST_IP, "a-different-client/3.2.1", (ts, &offsets)).is_none());
    assert!(redeem(TEST_IP, TEST_UA, (ts + 1, &offsets)).is_none());
    assert!(redeem(TEST_IP, TEST_UA, (ts, &[])).is_none()); // empty solution
    assert!(redeem(TEST_IP, TEST_UA, (ts, &offsets[0..1])).is_none()); // too short
    assert!(redeem(TEST_IP, TEST_UA, (ts, &[offsets[0]; NUM_SOLUTION_OFFSETS])).is_none()); // duplicates

    // A submission that could not be read
    assert!(auth.redeem_solution(TEST_IP, TEST_UA, None).is_none());
}

#[test]
fn test_token_verification() {
    let auth = make_auth();
    let mint_token = |ts| {
        let fp = Fingerprint::new(ts, TEST_IP, TEST_UA);
        auth.mint_token(&fp)
    };

    // Make sure tokens expire
    assert!(!auth.verify_token(TEST_IP, TEST_UA, &mint_token(now_secs() - 61))); // too old
    assert!(auth.verify_token(TEST_IP, TEST_UA, &mint_token(now_secs() - 59))); // old
    assert!(auth.verify_token(TEST_IP, TEST_UA, &mint_token(now_secs()))); // brand new
    assert!(!auth.verify_token(TEST_IP, TEST_UA, &mint_token(now_secs() + 1))); // someone's clock is off

    // Make sure bad formats don't cause problems
    assert!(!auth.verify_token(TEST_IP, TEST_UA, ""));
    assert!(!auth.verify_token(TEST_IP, TEST_UA, ".junk"));
    assert!(!auth.verify_token(TEST_IP, TEST_UA, "junk."));
    assert!(!auth.verify_token(TEST_IP, TEST_UA, "junk.morejunk"));
    assert!(!auth.verify_token(TEST_IP, TEST_UA, "c0ffee.morejunk")); // hex timestamp
    assert!(!auth.verify_token(TEST_IP, TEST_UA, "c0ffee.bad")); // not enough nybbles
    assert!(!auth.verify_token(TEST_IP, TEST_UA, "c0ffee.900d")); // MAC too short
}

fn at(secs: u64, nanos: u32) -> Option<ClockReading> {
    Some(ClockReading { secs, nanos })
}

#[test]
fn token_is_timestamp_and_keyed_hash() {
    let auth = make_auth();
    let root = blake3::derive_key(
        "[github/cmounce/heavy] [2026-04-10T03:24:16Z] MAC keys",
        b"some-passphrase",
    );
    let key = blake3::derive_key("token", &root);
    let fp = Fingerprint::new(0xc0ffee, TEST_IP, TEST_UA);
    let mut bytes = 0xc0ffee_u64.to_le_bytes().to_vec();
    bytes.extend_from_slice(&[b'4', 10, 0, 0, 1]);
    bytes.extend_from_slice(TEST_UA.as_bytes());
    let expected = format!("c0ffee.{}", blake3::keyed_hash(&key, &bytes));
    assert_eq!(auth.mint_token(&fp), expected);

    // The signature is read in either case
    assert!(auth.verify_token_at(at(0xc0ffee, 0), TEST_IP, TEST_UA, &expected));
    assert!(auth.verify_token_at(at(0xc0ffee, 0), TEST_IP, TEST_UA, &expected.to_uppercase()));
    assert!(auth.verify_token_at(at(0xc0ffee, 0), TEST_IP, TEST_UA, &format!("+0{expected}")));
}

#[test]
fn puzzle_is_timestamp_difficulty_and_nonce() {
    let auth = make_auth();
    let root = blake3::derive_key(
        "[github/cmounce/heavy] [2026-04-10T03:24:16Z] MAC keys",
        b"some-passphrase",
    );
    let key = blake3::derive_key("puzzle", &root);
    let ip = IpAddr::V6([0xfd, 0, 0, 0, 0, 0, 0, 0, 0, 0, 0, 0, 0, 0, 0, 1]);
    let mut bytes = 1234_u64.to_le_bytes().to_vec();
    bytes.push(b'6');
    bytes.extend_from_slice(&[0xfd, 0, 0, 0, 0, 0, 0, 0, 0, 0, 0, 0, 0, 0, 0, 1]);
    bytes.extend_from_slice("caf\u{e9}".as_bytes());
    let nonce = blake3::keyed_hash(&key, &bytes);
    assert_eq!(auth.make_puzzle_at(1234, ip, "caf\u{e9}"), format!("1234.6.{nonce}"));
    assert_eq!(
        auth.puzzle_nonce(&Fingerprint::new(1234, ip, "caf\u{e9}")),
        *nonce.as_bytes()
    );
}

#[test]
fn puzzle_expires_after_five_minutes() {
    let auth = make_auth();
    let (ts, offsets) = solve_puzzle(&auth.make_puzzle_at(1_000, TEST_IP, TEST_UA));
    let redeem = |now: Option<ClockReading>| {
        let solution = Solution { timestamp: ts, offsets: offsets.clone() };
        auth.redeem_solution_at(now, TEST_IP, TEST_UA, Some(solution))
    };
    let token = redeem(at(1_000, 0)).unwrap();
    assert_eq!(redeem(at(1_300, 0)), Some(token.clone()));
    assert_eq!(redeem(at(1_300, 1)), None);
    assert_eq!(redeem(at(999, 999_999_999)), None);
    assert_eq!(redeem(None), None);

    // The token bears the timestamp of the puzzle
    assert!(auth.verify_token_at(at(1_060, 0), TEST_IP, TEST_UA, &token));
    assert!(!auth.verify_token_at(at(1_060, 1), TEST_IP, TEST_UA, &token));
    assert!(!auth.verify_token_at(at(1_060, 0), TEST_IP, "another-client/1.0", &token));
    assert!(!auth.verify_token_at(None, TEST_IP, TEST_UA, &token));
}

#[test]
fn proof_of_work_is_exact() {
    let auth = make_auth();
    let puzzle = auth.make_puzzle_at(7, TEST_IP, TEST_UA);
    let nonce = auth.puzzle_nonce(&Fingerprint::new(7, TEST_IP, TEST_UA));
    let (_, offsets) = solve_puzzle(&puzzle);
    let solution = Solution { timestamp: 7, offsets: offsets.clone() };
    for difficulty in 0..=6 {
        assert!(solution.verify_proof_of_work(&nonce, difficulty));
    }
    assert!(!solution.verify_proof_of_work(&nonce, 33));

    // One offset that is off by one
    let mut wrong = offsets.clone();
    wrong[9] += 1;
    let wrong = Solution { timestamp: 7, offsets: wrong };
    let mut word = [0u8; 4];
    let mut cipher = chacha20::ChaCha8::new((&nonce).into(), &Default::default());
    let mut block = vec![0u8; 4 * (offsets[9] as usize + 2)];
    cipher.apply_keystream(&mut block);
    word.copy_from_slice(&block[block.len() - 4..]);
    let proves = u32::from_le_bytes(word).leading_zeros() >= 6;
    assert_eq!(wrong.verify_proof_of_work(&nonce, 6), proves);

    // The same offsets in another order, and one too many
    let mut reversed = offsets.clone();
    reversed.reverse();
    assert!(!Solution { timestamp: 7, offsets: reversed }.verify_proof_of_work(&nonce, 6));
    let mut longer = offsets;
    longer.push(u32::MAX);
    assert!(!Solution { timestamp: 7, offsets: longer }.verify_proof_of_work(&nonce, 0));

    // At no difficulty any increasing offsets will do, up to the last one
    let far = (u32::MAX - 9..=u32::MAX).collect();
    assert!(Solution { timestamp: 7, offsets: far }.verify_proof_of_work(&nonce, 0));
}

#[test]
fn tokens_outlive_the_instance() {
    let before = Authenticator::new("secret", 6, 60);
    let after = Authenticator::new("secret", 7, 60);
    let token = before.mint_token(&Fingerprint::new(500, TEST_IP, TEST_UA));
    assert!(after.verify_token_at(at(500, 0), TEST_IP, TEST_UA, &token));
    let other = Authenticator::new("another secret", 6, 60);
    assert!(!other.verify_token_at(at(500, 0), TEST_IP, TEST_UA, &token));
}

#[test]
fn freshness_at_its_limits() {
    assert!(is_fresh_at(at(100, 0), 100, 0));
    assert!(!is_fresh_at(at(100, 1), 100, 0));
    assert!(is_fresh_at(at(160, 0), 100, 60));
    assert!(!is_fresh_at(at(160, 1), 100, 60));
    assert!(!is_fresh_at(at(99, 999_999_999), 100, 60));
    assert!(is_fresh_at(at(u64::MAX, 999_999_999), 0, u64::MAX) == false);
    assert!(is_fresh_at(at(u64::MAX, 0), 0, u64::MAX));
    assert!(!is_fresh_at(at(1, 0), u64::MAX, u64::MAX));
    assert!(!is_fresh_at(None, 0, u64::MAX));
    assert!(!is_fresh(u64::MAX, 60));
}

#[test]
fn clock_shows_the_time_of_the_system() {
    let since_epoch = || std::time::SystemTime::UNIX_EPOCH.elapsed().unwrap();
    let before = since_epoch();
    let reading = now().unwrap();
    let after = since_epoch();
    let shown = std::time::Duration::new(reading.secs, reading.nanos);
    assert!(before <= shown && shown <= after);
    assert!(now_secs() >= before.as_secs());
    assert_eq!(epoch_secs(Some(reading)), reading.secs);
    assert_eq!(epoch_secs(None), 0);
}
