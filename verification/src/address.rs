//! Network addresses: which ones are usable, and how the validator's own
//! address is followed as it changes.

use std::collections::VecDeque;
use vstd::prelude::*;
use vstd::string::*;

use crate::seqs::lemma_to_set_push;
use crate::text::{
    all_digits, chars_of, digits_value, find_char, find_last_char, last_position, parse_unsigned,
    split, split_on, trim, trimmed, unsigned_up_to,
};

verus! {

/// An address of the internet.
#[derive(Clone, Copy, Debug, PartialEq, Eq, Structural)]
pub enum HostAddr {
    V4(u8, u8, u8, u8),
    V6(u128),
}

/// One part of a dotted address: up to three digits without a leading zero,
/// worth at most 255.
pub open spec fn octet(s: Seq<char>) -> Option<u8> {
    if 1 <= s.len() <= 3 && all_digits(s) && (s.len() == 1 || s[0] != '0') && digits_value(s) <= 255 {
        Some(digits_value(s) as u8)
    } else {
        None
    }
}

/// The four octets that a dotted address writes.
pub open spec fn ipv4_octets(s: Seq<char>) -> Option<(u8, u8, u8, u8)> {
    let p = split_on(s, '.');
    if p.len() == 4 && octet(p[0]) is Some && octet(p[1]) is Some && octet(p[2]) is Some && octet(
        p[3],
    ) is Some {
        Some((octet(p[0])->0, octet(p[1])->0, octet(p[2])->0, octet(p[3])->0))
    } else {
        None
    }
}

fn read_octet(a: &Vec<char>) -> (r: Option<u8>)
    ensures
        r == octet(a@),
{
    if a.len() == 0 || a.len() > 3 {
        return None;
    }
    let mut n: u32 = 0;
    let mut i: usize = 0;
    while i < a.len()
        invariant
            i <= a@.len() <= 3,
            forall|j: int| 0 <= j < i ==> crate::text::is_digit(#[trigger] a@[j]),
            n == digits_value(a@.take(i as int)),
            i == 0 ==> n == 0,
            i == 1 ==> n <= 9,
            i == 2 ==> n <= 99,
            i == 3 ==> n <= 999,
        decreases a@.len() - i,
    {
        let c = a[i];
        if c < '0' || c > '9' {
            return None;
        }
        proof {
            assert(a@.take(i + 1).drop_last() =~= a@.take(i as int));
            assert(a@.take(i + 1).last() == c);
        }
        n = n * 10 + (c as u32 - '0' as u32);
        i += 1;
    }
    proof {
        assert(a@.take(i as int) =~= a@);
    }
    if (a.len() > 1 && a[0] == '0') || n > 255 {
        return None;
    }
    Some(n as u8)
}

/// Reads a dotted address.
pub fn parse_ipv4(s: &str) -> (r: Option<(u8, u8, u8, u8)>)
    ensures
        r == ipv4_octets(s@),
{
    let p = split(s, '.');
    let ghost q = split_on(s@, '.');
    if p.len() != 4 {
        return None;
    }
    proof {
        assert(q[0] == p@[0]@ && q[1] == p@[1]@ && q[2] == p@[2]@ && q[3] == p@[3]@);
    }
    match (read_octet(&p[0]), read_octet(&p[1]), read_octet(&p[2]), read_octet(&p[3])) {
        (Some(a), Some(b), Some(c), Some(d)) => Some((a, b, c, d)),
        _ => None,
    }
}

/// Whether an address can be reached from the whole internet: none of the
/// ranges set aside for private networks, documentation, tests or later use.
pub open spec fn globally_reachable(a: u8, b: u8, c: u8, d: u8) -> bool {
    &&& a != 0
    &&& a != 10
    &&& !(a == 100 && 64 <= b <= 127)
    &&& a != 127
    &&& !(a == 169 && b == 254)
    &&& !(a == 172 && 16 <= b <= 31)
    &&& !(a == 192 && b == 0 && c == 0 && d != 9 && d != 10)
    &&& !(a == 192 && b == 0 && c == 2)
    &&& !(a == 192 && b == 168)
    &&& !(a == 198 && (b == 18 || b == 19))
    &&& !(a == 198 && b == 51 && c == 100)
    &&& !(a == 203 && b == 0 && c == 113)
    &&& a < 240
}

/// Whether an address names a group of hosts.
pub open spec fn multicast(a: u8) -> bool {
    224 <= a <= 239
}

/// An address at which one host can be reached from everywhere.
pub open spec fn routable(a: u8, b: u8, c: u8, d: u8) -> bool {
    globally_reachable(a, b, c, d) && !multicast(a)
}

fn is_routable(a: u8, b: u8, c: u8, d: u8) -> (r: bool)
    ensures
        r == routable(a, b, c, d),
{
    a != 0 && a != 10 && !(a == 100 && 64 <= b && b <= 127) && a != 127 && !(a == 169 && b == 254)
        && !(a == 172 && 16 <= b && b <= 31) && !(a == 192 && b == 0 && c == 0 && d != 9 && d != 10)
        && !(a == 192 && b == 0 && c == 2) && !(a == 192 && b == 168) && !(a == 198 && (b == 18 || b
        == 19)) && !(a == 198 && b == 51 && c == 100) && !(a == 203 && b == 0 && c == 113) && a < 224
}

/// Whether a text is a dotted address at which a miner could be reached.
pub open spec fn valid_ip(s: Seq<char>) -> bool {
    match ipv4_octets(s) {
        Some((a, b, c, d)) => routable(a, b, c, d),
        None => false,
    }
}

/// Whether a text is a dotted address at which a miner could be reached.
pub fn is_valid_ip(ip_str: &str) -> (r: bool)
    ensures
        r == valid_ip(ip_str@),
{
    match parse_ipv4(ip_str) {
        Some((a, b, c, d)) => is_routable(a, b, c, d),
        None => false,
    }
}

/// Why an address cannot be published as the validator's own.
#[derive(Clone, Copy, Debug, PartialEq, Eq, Structural)]
pub enum ExternalIpError {
    /// Loopback, private, shared, link-local, multicast or unspecified.
    NotRoutable,
    /// Registration takes version 4 addresses only.
    NotIpv4,
}

/// Lets an address through if it is a publicly routable version 4 address.
pub fn require_ipv4(ip: HostAddr) -> (r: Result<HostAddr, ExternalIpError>)
    ensures
        match ip {
            HostAddr::V4(a, b, c, d) => if routable(a, b, c, d) {
                r == Ok::<HostAddr, ExternalIpError>(ip)
            } else {
                r == Err::<HostAddr, ExternalIpError>(ExternalIpError::NotRoutable)
            },
            HostAddr::V6(_) => r == Err::<HostAddr, ExternalIpError>(ExternalIpError::NotIpv4),
        },
{
    match ip {
        HostAddr::V4(a, b, c, d) => if is_routable(a, b, c, d) {
            Ok(ip)
        } else {
            Err(ExternalIpError::NotRoutable)
        },
        HostAddr::V6(_) => Err(ExternalIpError::NotIpv4),
    }
}

/// Why a miner address is refused.
#[derive(Clone, Copy, Debug, PartialEq, Eq, Structural)]
pub enum MinerAddressError {
    /// There is no colon between host and port.
    NotHostPort,
    /// What follows the last colon is no port number.
    BadPort,
    /// The port is zero.
    ZeroPort,
    /// Nothing but white space stands before the last colon.
    EmptyHost,
}

/// The host and the port that an address of the form `host:port` names.
pub open spec fn miner_address(s: Seq<char>) -> Result<(Seq<char>, u16), MinerAddressError> {
    match last_position(s, ':') {
        None => Err(MinerAddressError::NotHostPort),
        Some(i) => match unsigned_up_to(s.skip(i + 1), u16::MAX as nat) {
            None => Err(MinerAddressError::BadPort),
            Some(p) => if p == 0 {
                Err(MinerAddressError::ZeroPort)
            } else if trimmed(s.take(i)).len() == 0 {
                Err(MinerAddressError::EmptyHost)
            } else {
                Ok((trimmed(s.take(i)), p as u16))
            },
        },
    }
}

/// Reads an address of the form `host:port`.
pub fn parse_miner_address(addr: &str) -> (r: Result<(String, u16), MinerAddressError>)
    ensures
        match r {
            Ok((host, port)) => miner_address(addr@) == Ok::<(Seq<char>, u16), MinerAddressError>(
                (host@, port),
            ),
            Err(e) => miner_address(addr@) == Err::<(Seq<char>, u16), MinerAddressError>(e),
        },
{
    let a = chars_of(addr);
    match find_last_char(&a, ':') {
        None => Err(MinerAddressError::NotHostPort),
        Some(i) => {
            let n: usize = addr.unicode_len();
            let tail = addr.substring_char(i + 1, n);
            let head = addr.substring_char(0, i);
            proof {
                assert(tail@ =~= addr@.skip(i + 1));
                assert(head@ =~= addr@.take(i as int));
            }
            match parse_unsigned(tail, u16::MAX as u64) {
                None => Err(MinerAddressError::BadPort),
                Some(p) => {
                    if p == 0 {
                        return Err(MinerAddressError::ZeroPort);
                    }
                    let host = trim(head);
                    if host.is_empty() {
                        return Err(MinerAddressError::EmptyHost);
                    }
                    Ok((host.to_owned(), p as u16))
                },
            }
        },
    }
}

/// The first two parts of a dotted address, or nothing where there are not two.
pub open spec fn region_text(s: Seq<char>) -> Seq<char> {
    let p = split_on(s, '.');
    if p.len() >= 2 {
        p[0] + seq!['.'] + p[1]
    } else {
        Seq::empty()
    }
}

/// The region of an address: its first two parts.
pub fn ip_region(ip: &str) -> (r: String)
    ensures
        r@ == region_text(ip@),
{
    let a = chars_of(ip);
    let n: usize = a.len();
    match find_char(&a, '.', 0) {
        None => {
            proof {
                crate::text::lemma_split_none(ip@, '.');
            }
            String::new()
        },
        Some(i) => {
            let ghost rest = ip@.skip(i + 1);
            proof {
                crate::text::lemma_split_head(ip@, '.', i as int);
                crate::text::lemma_split_nonempty(rest, '.');
            }
            let j: usize = match find_char(&a, '.', i + 1) {
                Some(j) => {
                    proof {
                        assert forall|k: int| 0 <= k < j - i - 1 implies rest[k] != '.' by {
                            assert(a@[k + i + 1] != '.');
                        }
                        crate::text::lemma_split_head(rest, '.', j - i - 1);
                        assert(split_on(rest, '.')[0] =~= a@.subrange(i + 1, j as int));
                    }
                    j
                },
                None => {
                    proof {
                        assert forall|k: int| 0 <= k < rest.len() implies rest[k] != '.' by {
                            assert(a@[k + i + 1] != '.');
                        }
                        crate::text::lemma_split_none(rest, '.');
                        assert(split_on(rest, '.')[0] =~= a@.subrange(i + 1, a@.len() as int));
                    }
                    n
                },
            };
            let r = ip.substring_char(0, j);
            proof {
                let p = split_on(ip@, '.');
                assert(p[0] == ip@.take(i as int));
                assert(p[1] == ip@.subrange(i + 1, j as int));
                assert(r@ =~= p[0] + seq!['.'] + p[1]);
            }
            r.to_owned()
        },
    }
}

/// A rotation is an observed change between the address miners hold for this
/// validator and the address it now has. Where nobody holds an address, there is
/// no rotation.
pub fn rotation_detected(previously_known: Option<HostAddr>, current: HostAddr) -> (r: bool)
    ensures
        r == (previously_known is Some && previously_known->0 != current),
{
    match previously_known {
        Some(prev) => prev != current,
        None => false,
    }
}

/// The address to compare a fresh detection against.
pub open spec fn best_known(
    observed: Option<HostAddr>,
    published: Option<HostAddr>,
    chain_entry: Option<HostAddr>,
) -> Option<HostAddr> {
    if observed is Some {
        observed
    } else if published is Some {
        published
    } else {
        chain_entry
    }
}

/// The address to compare a fresh detection against, in order of how recently
/// it was established by this process.
pub fn known_address(
    observed: Option<HostAddr>,
    published: Option<HostAddr>,
    chain_entry: Option<HostAddr>,
) -> (r: Option<HostAddr>)
    ensures
        r == best_known(observed, published, chain_entry),
{
    if observed.is_some() {
        observed
    } else if published.is_some() {
        published
    } else {
        chain_entry
    }
}

/// The miners that occur in a list of failures.
pub open spec fn failed_miners(recent: Seq<(u64, u16)>) -> Set<u16> {
    recent.map_values(|e: (u64, u16)| e.1).to_set()
}

/// Whether at least `min_miners` different miners occur in a list of failures.
pub fn disconnect_burst(recent: &VecDeque<(u64, u16)>, min_miners: usize) -> (r: bool)
    ensures
        failed_miners(recent@).finite(),
        r == (failed_miners(recent@).len() >= min_miners),
{
    let mut uids: Vec<u16> = Vec::new();
    let n: usize = recent.len();
    let mut i: usize = 0;
    proof {
        assert(failed_miners(recent@.take(0)) =~= uids@.to_set());
    }
    while i < n
        invariant
            n == recent@.len(),
            i <= n,
            uids@.no_duplicates(),
            uids@.to_set() == failed_miners(recent@.take(i as int)),
        decreases n - i,
    {
        let uid: u16 = recent[i].1;
        let mut k: usize = 0;
        while k < uids.len() && uids[k] != uid
            invariant
                k <= uids@.len(),
                forall|j: int| 0 <= j < k ==> uids@[j] != uid,
            decreases uids@.len() - k,
        {
            k += 1;
        }
        let ghost before = uids@;
        let ghost seen = recent@.take(i as int).map_values(|e: (u64, u16)| e.1);
        let ghost more = recent@.take(i + 1).map_values(|e: (u64, u16)| e.1);
        proof {
            assert(more =~= seen.push(uid));
            lemma_to_set_push(seen, uid);
        }
        if k == uids.len() {
            uids.push(uid);
            proof {
                lemma_to_set_push(before, uid);
            }
        } else {
            proof {
                assert(before[k as int] == uid);
                assert(before.to_set().insert(uid) =~= before.to_set());
            }
        }
        i += 1;
    }
    proof {
        assert(recent@.take(i as int) =~= recent@);
        uids@.unique_seq_to_set();
    }
    uids.len() >= min_miners
}

} // verus!
