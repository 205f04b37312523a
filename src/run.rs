//! Decisions of a daily run: retry schedule, next trigger time, signer keys and
//! the vote tally. The caller performs the I/O and hands back what happened.

use vstd::prelude::*;
use vstd::string::*;
use crate::error::SofrError;
use crate::text::{chars_to_string, nat_text, push_nat_text, trim_ascii, trim_ascii_str};

verus! {

/// Attempts per source request.
pub const MAX_ATTEMPTS: u32 = 3;

/// Delay after the first failed attempt.
pub const INITIAL_DELAY_SECS: u64 = 30;

/// Seconds in a day.
pub const SECS_PER_DAY: u64 = 86_400;

/// What to do after attempt `attempt` (counted from 1) of a request failed: wait
/// `30 * 2^(attempt - 1)` seconds and try again, or give up after the last attempt.
pub fn retry_delay_secs(attempt: u32) -> (r: Option<u64>)
    requires
        attempt >= 1,
    ensures
        attempt >= MAX_ATTEMPTS ==> r is None,
        attempt == 1 ==> r == Some(30u64),
        attempt == 2 ==> r == Some(60u64),
{
    if attempt >= MAX_ATTEMPTS {
        None
    } else if attempt == 1 {
        Some(INITIAL_DELAY_SECS)
    } else {
        Some(INITIAL_DELAY_SECS * 2)
    }
}

/// Seconds from `now_secs_of_day` (seconds since midnight UTC) to the next
/// `target_hour:00:00` UTC; a target that is now or past rolls over to tomorrow.
pub fn seconds_until_next_execution(now_secs_of_day: u64, target_hour: u32) -> (r: u64)
    requires
        now_secs_of_day < SECS_PER_DAY,
        target_hour < 24,
    ensures
        target_hour * 3600 > now_secs_of_day ==> r == target_hour * 3600 - now_secs_of_day,
        target_hour * 3600 <= now_secs_of_day ==> r == SECS_PER_DAY + target_hour * 3600
            - now_secs_of_day,
        0 < r <= SECS_PER_DAY,
{
    let target = target_hour as u64 * 3600;
    if target > now_secs_of_day {
        target - now_secs_of_day
    } else {
        SECS_PER_DAY - now_secs_of_day + target
    }
}

/// Text `{h}h {m}m {s}s` of a duration in whole seconds.
pub open spec fn duration_text(total_seconds: nat) -> Seq<char> {
    nat_text(total_seconds / 3600) + seq!['h', ' '] + nat_text((total_seconds % 3600) / 60) + seq![
        'm',
        ' ',
    ] + nat_text(total_seconds % 60) + seq!['s']
}

/// Human-readable duration, `{h}h {m}m {s}s`.
pub fn fmt_duration(total_seconds: u64) -> (r: String)
    ensures
        r@ == duration_text(total_seconds as nat),
{
    let mut v: Vec<char> = Vec::new();
    push_nat_text(&mut v, total_seconds / 3600);
    v.push('h');
    v.push(' ');
    push_nat_text(&mut v, (total_seconds % 3600) / 60);
    v.push('m');
    v.push(' ');
    push_nat_text(&mut v, total_seconds % 60);
    v.push('s');
    assert(v@ =~= duration_text(total_seconds as nat));
    chars_to_string(v)
}

/// The exchange endpoint of the selected network.
pub fn exchange_url(is_mainnet: bool) -> (r: &'static str)
    ensures
        is_mainnet ==> r@ == "https://api.hyperliquid.xyz/exchange"@,
        !is_mainnet ==> r@ == "https://api.hyperliquid-testnet.xyz/exchange"@,
{
    if is_mainnet {
        "https://api.hyperliquid.xyz/exchange"
    } else {
        "https://api.hyperliquid-testnet.xyz/exchange"
    }
}

/// Mainnet unless the network setting is exactly `testnet`.
pub fn is_mainnet_setting(network: Option<&str>) -> (r: bool)
    ensures
        r == !(network matches Some(n) && n@ == "testnet"@),
{
    match network {
        Some(n) => !crate::sources::str_eq(n, "testnet"),
        None => true,
    }
}

pub open spec fn count_true(s: Seq<bool>) -> nat
    decreases s.len(),
{
    if s.len() == 0 {
        0
    } else {
        count_true(s.drop_last()) + if s.last() { 1nat } else { 0nat }
    }
}

/// Tally of the per-signer submissions: `(succeeded, failed)`, or `AllVotesFailed`
/// when none succeeded.
pub fn summarize_votes(outcomes: &Vec<bool>) -> (r: Result<(usize, usize), SofrError>)
    ensures
        count_true(outcomes@) == 0 ==> r == Err::<(usize, usize), SofrError>(
            SofrError::AllVotesFailed,
        ),
        count_true(outcomes@) > 0 ==> r == Ok::<(usize, usize), SofrError>(
            (count_true(outcomes@) as usize, (outcomes@.len() - count_true(outcomes@)) as usize),
        ),
{
    let mut ok: usize = 0;
    let mut i: usize = 0;
    assert(outcomes@.subrange(0, 0) =~= Seq::<bool>::empty());
    while i < outcomes.len()
        invariant
            i <= outcomes@.len(),
            ok == count_true(outcomes@.subrange(0, i as int)),
            ok <= i,
        decreases outcomes.len() - i,
    {
        assert(outcomes@.subrange(0, i + 1).drop_last() =~= outcomes@.subrange(0, i as int));
        if outcomes[i] {
            ok = ok + 1;
        }
        i = i + 1;
    }
    assert(outcomes@.subrange(0, outcomes@.len() as int) =~= outcomes@);
    if ok == 0 {
        Err(SofrError::AllVotesFailed)
    } else {
        Ok((ok, outcomes.len() - ok))
    }
}

} // verus!

verus! {

/// Whether alloy accepts `key` as a secp256k1 secret key (a nonzero scalar below the
/// group order; a slice shorter than 32 bytes is read left-padded).
pub uninterp spec fn accepts_signing_key(key: Seq<u8>) -> bool;

/// Relies on alloy's `PrivateKeySigner::from_slice`, which refuses a key that is not
/// a valid secp256k1 secret scalar.
#[verifier::external_body]
fn signing_key_accepted(key: &[u8]) -> (r: bool)
    ensures
        r == accepts_signing_key(key@),
{
    alloy::signers::local::PrivateKeySigner::from_slice(key).is_ok()
}

pub open spec fn is_hex_char(c: char) -> bool {
    ('0' <= c && c <= '9') || ('a' <= c && c <= 'f') || ('A' <= c && c <= 'F')
}

pub open spec fn hex_value(c: char) -> nat {
    if '0' <= c && c <= '9' {
        (c as u32 - '0' as u32) as nat
    } else if 'a' <= c && c <= 'f' {
        (c as u32 - 'a' as u32 + 10) as nat
    } else {
        (c as u32 - 'A' as u32 + 10) as nat
    }
}

/// The hex digits of a key text: without surrounding whitespace and an optional `0x`.
pub open spec fn key_digits(piece: Seq<char>) -> Seq<char> {
    let t = trim_ascii(piece);
    if t.len() >= 2 && t[0] == '0' && t[1] == 'x' {
        t.subrange(2, t.len() as int)
    } else {
        t
    }
}

/// The 32 bytes that a key text of 64 hex digits spells.
pub open spec fn key_of(piece: Seq<char>) -> Option<Seq<u8>> {
    let h = key_digits(piece);
    if h.len() == 64 && (forall|i: int| 0 <= i < 64 ==> is_hex_char(#[trigger] h[i])) {
        Some(Seq::new(32, |j: int| (hex_value(h[2 * j]) * 16 + hex_value(h[2 * j + 1])) as u8))
    } else {
        None
    }
}

/// The keys of the comma-separated list from the piece that begins at `start`,
/// scanning from `i`; `None` if any piece is not an accepted key.
pub open spec fn keys_from(s: Seq<char>, start: int, i: int) -> Option<Seq<Seq<u8>>>
    decreases s.len() - i,
{
    if i >= s.len() {
        match key_of(s.subrange(start, s.len() as int)) {
            Some(k) => if accepts_signing_key(k) { Some(seq![k]) } else { None },
            None => None,
        }
    } else if s[i] == ',' {
        match key_of(s.subrange(start, i)) {
            Some(k) => if accepts_signing_key(k) {
                match keys_from(s, i + 1, i + 1) {
                    Some(rest) => Some(seq![k] + rest),
                    None => None,
                }
            } else {
                None
            },
            None => None,
        }
    } else {
        keys_from(s, start, i + 1)
    }
}

fn hex_value_exec(c: char) -> (r: Option<u8>)
    ensures
        r matches Some(v) ==> is_hex_char(c) && v == hex_value(c) && v < 16,
        r is None ==> !is_hex_char(c),
{
    if '0' <= c && c <= '9' {
        Some((c as u32 - '0' as u32) as u8)
    } else if 'a' <= c && c <= 'f' {
        Some((c as u32 - 'a' as u32 + 10) as u8)
    } else if 'A' <= c && c <= 'F' {
        Some((c as u32 - 'A' as u32 + 10) as u8)
    } else {
        None
    }
}

/// Decodes one key text: optional surrounding whitespace and `0x`, then 64 hex digits.
pub fn decode_key(piece: &str) -> (r: Option<Vec<u8>>)
    ensures
        r matches Some(k) ==> key_of(piece@) == Some(k@),
        r is None ==> key_of(piece@) is None,
{
    let t = trim_ascii_str(piece);
    let n = t.unicode_len();
    let off: usize = if n >= 2 && t.get_char(0) == '0' && t.get_char(1) == 'x' { 2 } else { 0 };
    let ghost h = key_digits(piece@);
    assert(h =~= t@.subrange(off as int, n as int));
    if n - off != 64 {
        return None;
    }
    let mut out: Vec<u8> = Vec::new();
    let mut j: usize = 0;
    while j < 32
        invariant
            j <= 32,
            n == t@.len(),
            n - off == 64,
            h == t@.subrange(off as int, n as int),
            h == key_digits(piece@),
            forall|i: int| 0 <= i < 2 * j ==> is_hex_char(#[trigger] h[i]),
            out@ =~= Seq::new(j as nat, |x: int| (hex_value(h[2 * x]) * 16 + hex_value(h[2 * x + 1])) as u8),
        decreases 32 - j,
    {
        let hi = match hex_value_exec(t.get_char(off + 2 * j)) {
            Some(v) => v,
            None => {
                assert(!is_hex_char(h[2 * j as int]));
                return None;
            },
        };
        let lo = match hex_value_exec(t.get_char(off + 2 * j + 1)) {
            Some(v) => v,
            None => {
                assert(!is_hex_char(h[2 * j + 1]));
                return None;
            },
        };
        out.push(hi * 16 + lo);
        j = j + 1;
    }
    Some(out)
}

/// Reads a comma-separated list of hex secret keys (each optionally `0x`-prefixed,
/// whitespace around commas ignored). Any empty, malformed or refused key fails the list.
pub fn parse_signer_keys(s: &str) -> (r: Result<Vec<Vec<u8>>, SofrError>)
    ensures
        r matches Ok(v) ==> keys_from(s@, 0, 0) == Some(v@.map_values(|k: Vec<u8>| k@)),
        r is Err ==> r == Err::<Vec<Vec<u8>>, SofrError>(SofrError::ConfigError) && keys_from(s@, 0, 0) is None,
{
    let n = s.unicode_len();
    let mut keys: Vec<Vec<u8>> = Vec::new();
    let mut start: usize = 0;
    let mut i: usize = 0;
    while i < n
        invariant
            n == s@.len(),
            start <= i <= n,
            keys_from(s@, 0, 0) == (match keys_from(s@, start as int, i as int) {
                Some(rest) => Some(keys@.map_values(|k: Vec<u8>| k@) + rest),
                None => None::<Seq<Seq<u8>>>,
            }),
        decreases n - i,
    {
        if s.get_char(i) == ',' {
            let key = match decode_key(s.substring_char(start, i)) {
                Some(k) => k,
                None => {
                    return Err(SofrError::ConfigError);
                },
            };
            if !signing_key_accepted(key.as_slice()) {
                return Err(SofrError::ConfigError);
            }
            let ghost before = keys@.map_values(|k: Vec<u8>| k@);
            let ghost k = key@;
            keys.push(key);
            assert(keys@.map_values(|k: Vec<u8>| k@) =~= before.push(k));
            proof {
                match keys_from(s@, i + 1, i + 1) {
                    Some(rest) => {
                        assert(before + (seq![k] + rest) =~= before.push(k) + rest);
                    },
                    None => {},
                }
            }
            start = i + 1;
        }
        i = i + 1;
    }
    let key = match decode_key(s.substring_char(start, n)) {
        Some(k) => k,
        None => {
            return Err(SofrError::ConfigError);
        },
    };
    if !signing_key_accepted(key.as_slice()) {
        return Err(SofrError::ConfigError);
    }
    let ghost before = keys@.map_values(|k: Vec<u8>| k@);
    let ghost k = key@;
    keys.push(key);
    assert(keys@.map_values(|k: Vec<u8>| k@) =~= before + seq![k]);
    Ok(keys)
}

} // verus!
