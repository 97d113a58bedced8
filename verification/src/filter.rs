//! Destination policy filter: port whitelist, literal IP parsing, and
//! the blocked-range classification for IPv4 and IPv6 addresses.
//!
//! Literal hosts are decided here outright. DNS names need resolution,
//! which is I/O: the caller resolves and hands every resolved address to
//! `validate_resolved`, which admits the target only when all of them
//! pass.

use vstd::prelude::*;
use vstd::utf8::encode_utf8;

use crate::text::find_byte;
use crate::text::lemma_find_first;
use crate::text::spec_all_digits;
use crate::text::spec_digits_val;
use crate::text::spec_find;
use crate::text::spec_is_digit;

verus! {

/// A destination address, as the policy filter sees it: an IPv4 address
/// as its 32-bit value, or an IPv6 address as its 128-bit value.
#[derive(Debug, PartialEq, Eq, Structural, Clone, Copy)]
pub enum IpAddress {
    V4(u32),
    V6(u128),
}

/// Why an address is refused.
#[derive(Debug, PartialEq, Eq, Structural, Clone, Copy)]
pub enum BlockReason {
    Loopback,
    LinkLocal,
    Private,
    Multicast,
    Unspecified,
    Broadcast,
}

/// Why a target is refused.
#[derive(Debug, PartialEq, Eq, Structural, Clone, Copy)]
pub enum FilterError {
    /// The port is not in the allowed set.
    PortNotAllowed,
    /// The address falls in a blocked range.
    BlockedAddress(BlockReason),
    /// The host resolved to nothing.
    ResolutionFailed,
}

impl FilterError {
    /// Stable description of the refusal.
    pub fn message(&self) -> (r: &'static str)
        ensures
            r@ == self.spec_message(),
    {
        match self {
            FilterError::PortNotAllowed => "destination port is not allowed",
            FilterError::BlockedAddress(BlockReason::Loopback) => "destination address is blocked: loopback",
            FilterError::BlockedAddress(BlockReason::LinkLocal) => "destination address is blocked: link-local",
            FilterError::BlockedAddress(BlockReason::Private) => "destination address is blocked: private range",
            FilterError::BlockedAddress(BlockReason::Multicast) => "destination address is blocked: multicast",
            FilterError::BlockedAddress(BlockReason::Unspecified) => "destination address is blocked: unspecified",
            FilterError::BlockedAddress(BlockReason::Broadcast) => "destination address is blocked: broadcast",
            FilterError::ResolutionFailed => "destination host could not be resolved",
        }
    }

    /// The description `message` returns.
    pub open spec fn spec_message(&self) -> Seq<char> {
        match self {
            FilterError::PortNotAllowed => "destination port is not allowed"@,
            FilterError::BlockedAddress(BlockReason::Loopback) => "destination address is blocked: loopback"@,
            FilterError::BlockedAddress(BlockReason::LinkLocal) => "destination address is blocked: link-local"@,
            FilterError::BlockedAddress(BlockReason::Private) => "destination address is blocked: private range"@,
            FilterError::BlockedAddress(BlockReason::Multicast) => "destination address is blocked: multicast"@,
            FilterError::BlockedAddress(BlockReason::Unspecified) => "destination address is blocked: unspecified"@,
            FilterError::BlockedAddress(BlockReason::Broadcast) => "destination address is blocked: broadcast"@,
            FilterError::ResolutionFailed => "destination host could not be resolved"@,
        }
    }
}

/// A vetted destination: the address the dialer will use.
#[derive(Debug, PartialEq, Eq, Structural, Clone, Copy)]
pub struct Endpoint {
    pub ip: IpAddress,
    pub port: u16,
}

/// Outcome of checking a host literal: a usable endpoint, or a DNS name
/// that the caller must resolve first.
#[derive(Debug, PartialEq, Eq, Structural, Clone, Copy)]
pub enum TargetCheck {
    /// The host was a literal address and passed every check.
    Usable(Endpoint),
    /// The host is a DNS name: resolve it and call `validate_resolved`.
    NeedsResolution,
}

// ---------------------------------------------------------------------
// Blocked-range classification
// ---------------------------------------------------------------------

/// The range an IPv4 address is refused for, if any: unspecified,
/// broadcast, loopback (127/8), link-local (169.254/16), private (10/8,
/// 172.16/12, 192.168/16), multicast (224/4).
pub open spec fn spec_block_v4(a: u32) -> Option<BlockReason> {
    let o0 = a as int / 0x1000000;
    let o1 = (a as int / 0x10000) % 256;
    if a == 0 {
        Some(BlockReason::Unspecified)
    } else if a == 0xFFFF_FFFFu32 {
        Some(BlockReason::Broadcast)
    } else if o0 == 127 {
        Some(BlockReason::Loopback)
    } else if o0 == 169 && o1 == 254 {
        Some(BlockReason::LinkLocal)
    } else if o0 == 10 || (o0 == 172 && 16 <= o1 < 32) || (o0 == 192 && o1 == 168) {
        Some(BlockReason::Private)
    } else if 224 <= o0 < 240 {
        Some(BlockReason::Multicast)
    } else {
        None
    }
}

/// The range an IPv6 address is refused for, if any: unspecified (::),
/// loopback (::1), link-local (fe80::/10), unique-local (fc00::/7),
/// multicast (ff00::/8).
pub open spec fn spec_block_v6(a: u128) -> Option<BlockReason> {
    if a == 0 {
        Some(BlockReason::Unspecified)
    } else if a == 1 {
        Some(BlockReason::Loopback)
    } else if a as int / 0x40_0000_0000_0000_0000_0000_0000_0000 == 0x3FA {
        Some(BlockReason::LinkLocal)
    } else if a as int / 0x200_0000_0000_0000_0000_0000_0000_0000 == 0x7E {
        Some(BlockReason::Private)
    } else if a as int / 0x100_0000_0000_0000_0000_0000_0000_0000 == 0xFF {
        Some(BlockReason::Multicast)
    } else {
        None
    }
}

/// The range an address is refused for, if any.
pub open spec fn spec_block(ip: IpAddress) -> Option<BlockReason> {
    match ip {
        IpAddress::V4(a) => spec_block_v4(a),
        IpAddress::V6(a) => spec_block_v6(a),
    }
}

/// Classifies an address against the blocked ranges.
pub fn block_reason(ip: &IpAddress) -> (r: Option<BlockReason>)
    ensures
        r == spec_block(*ip),
{
    match ip {
        IpAddress::V4(a) => {
            let a = *a;
            let o0 = a / 0x1000000;
            let o1 = (a / 0x10000) % 256;
            if a == 0 {
                Some(BlockReason::Unspecified)
            } else if a == 0xFFFF_FFFF {
                Some(BlockReason::Broadcast)
            } else if o0 == 127 {
                Some(BlockReason::Loopback)
            } else if o0 == 169 && o1 == 254 {
                Some(BlockReason::LinkLocal)
            } else if o0 == 10 || (o0 == 172 && 16 <= o1 && o1 < 32) || (o0 == 192 && o1 == 168) {
                Some(BlockReason::Private)
            } else if 224 <= o0 && o0 < 240 {
                Some(BlockReason::Multicast)
            } else {
                None
            }
        },
        IpAddress::V6(a) => {
            let a = *a;
            if a == 0 {
                Some(BlockReason::Unspecified)
            } else if a == 1 {
                Some(BlockReason::Loopback)
            } else if a / 0x40_0000_0000_0000_0000_0000_0000_0000u128 == 0x3FA {
                Some(BlockReason::LinkLocal)
            } else if a / 0x200_0000_0000_0000_0000_0000_0000_0000u128 == 0x7E {
                Some(BlockReason::Private)
            } else if a / 0x100_0000_0000_0000_0000_0000_0000_0000u128 == 0xFF {
                Some(BlockReason::Multicast)
            } else {
                None
            }
        },
    }
}

// ---------------------------------------------------------------------
// IPv4 literals
// ---------------------------------------------------------------------

/// A decimal IPv4 octet: one to three digits, no leading zero, at most
/// 255.
pub open spec fn spec_octet_ok(s: Seq<u8>) -> bool {
    &&& 1 <= s.len() <= 3
    &&& spec_all_digits(s)
    &&& (s.len() > 1 ==> s[0] != 48)
    &&& spec_digits_val(s) <= 255
}

/// Value of a dotted-decimal IPv4 literal, `None` when the text is not
/// one.
pub open spec fn spec_parse_ipv4(s: Seq<u8>) -> Option<u32> {
    match spec_find(s, 46) {
        None => None,
        Some(i1) => {
            let o0 = s.take(i1);
            let r1 = s.skip(i1 + 1);
            match spec_find(r1, 46) {
                None => None,
                Some(i2) => {
                    let o1 = r1.take(i2);
                    let r2 = r1.skip(i2 + 1);
                    match spec_find(r2, 46) {
                        None => None,
                        Some(i3) => {
                            let o2 = r2.take(i3);
                            let o3 = r2.skip(i3 + 1);
                            if spec_octet_ok(o0) && spec_octet_ok(o1) && spec_octet_ok(o2)
                                && spec_octet_ok(o3) {
                                Some(
                                    (spec_digits_val(o0) * 0x1000000 + spec_digits_val(o1)
                                        * 0x10000 + spec_digits_val(o2) * 0x100
                                        + spec_digits_val(o3)) as u32,
                                )
                            } else {
                                None
                            }
                        },
                    }
                },
            }
        },
    }
}

/// Parses one decimal octet.
fn parse_octet(s: &[u8]) -> (r: Option<u8>)
    ensures
        r is Some <==> spec_octet_ok(s@),
        r matches Some(v) ==> v as int == spec_digits_val(s@),
{
    let n = s.len();
    if n == 0 || n > 3 {
        return None;
    }
    let mut val: u32 = 0;
    let mut i: usize = 0;
    while i < n
        invariant
            n == s@.len(),
            n <= 3,
            0 <= i <= n,
            forall|k: int| 0 <= k < i ==> spec_is_digit(s@[k]),
            val == spec_digits_val(s@.take(i as int)),
            (val as int) <= (if i == 0 { 0int } else if i == 1 { 9int } else if i == 2 { 99int } else { 999int }),
        decreases n - i,
    {
        let b = s[i];
        if b < 48 || b > 57 {
            proof {
                assert(!spec_all_digits(s@));
            }
            return None;
        }
        proof {
            assert(s@.take(i + 1).drop_last() =~= s@.take(i as int));
            assert(s@.take(i + 1).last() == s@[i as int]);
        }
        val = val * 10 + (b - 48) as u32;
        i = i + 1;
    }
    proof {
        assert(s@.take(n as int) =~= s@);
    }
    if n > 1 && s[0] == 48 {
        return None;
    }
    if val > 255 {
        return None;
    }
    proof {
        crate::text::lemma_digits_val_nonneg(s@);
    }
    Some(val as u8)
}

/// Parses a dotted-decimal IPv4 literal.
pub fn parse_ipv4(s: &[u8]) -> (r: Option<u32>)
    ensures
        match r {
            Some(a) => spec_parse_ipv4(s@) == Some(a),
            None => spec_parse_ipv4(s@) is None,
        },
{
    let i1 = match find_byte(s, 46) {
        Some(i) => i,
        None => {
            return None;
        },
    };
    proof {
        lemma_find_first(s@, 46);
    }
    let n = s.len();
    let o0 = &s[0..i1];
    let r1 = &s[i1 + 1..n];
    proof {
        assert(o0@ =~= s@.take(i1 as int));
        assert(r1@ =~= s@.skip(i1 + 1));
    }
    let i2 = match find_byte(r1, 46) {
        Some(i) => i,
        None => {
            return None;
        },
    };
    proof {
        lemma_find_first(r1@, 46);
    }
    let n1 = r1.len();
    let o1 = &r1[0..i2];
    let r2 = &r1[i2 + 1..n1];
    proof {
        assert(o1@ =~= r1@.take(i2 as int));
        assert(r2@ =~= r1@.skip(i2 + 1));
    }
    let i3 = match find_byte(r2, 46) {
        Some(i) => i,
        None => {
            return None;
        },
    };
    proof {
        lemma_find_first(r2@, 46);
    }
    let n2 = r2.len();
    let o2 = &r2[0..i3];
    let o3 = &r2[i3 + 1..n2];
    proof {
        assert(o2@ =~= r2@.take(i3 as int));
        assert(o3@ =~= r2@.skip(i3 + 1));
    }
    let v0 = match parse_octet(o0) {
        Some(v) => v,
        None => {
            return None;
        },
    };
    let v1 = match parse_octet(o1) {
        Some(v) => v,
        None => {
            return None;
        },
    };
    let v2 = match parse_octet(o2) {
        Some(v) => v,
        None => {
            return None;
        },
    };
    let v3 = match parse_octet(o3) {
        Some(v) => v,
        None => {
            return None;
        },
    };
    Some(
        (v0 as u32) * 0x1000000 + (v1 as u32) * 0x10000 + (v2 as u32) * 0x100 + (v3 as u32),
    )
}

// ---------------------------------------------------------------------
// IPv6 literals
// ---------------------------------------------------------------------

/// Value of one hex digit, `None` for any other byte.
pub open spec fn spec_hex_digit_val(b: u8) -> Option<u8> {
    if 48 <= b <= 57 {
        Some((b - 48) as u8)
    } else if 97 <= b <= 102 {
        Some((b - 87) as u8)
    } else if 65 <= b <= 70 {
        Some((b - 55) as u8)
    } else {
        None
    }
}

/// All bytes of `s` are hex digits.
pub open spec fn spec_all_hex(s: Seq<u8>) -> bool {
    forall|i: int| 0 <= i < s.len() ==> spec_hex_digit_val(s[i]) is Some
}

/// A hex group of an IPv6 literal: one to four hex digits.
pub open spec fn spec_hex_group_ok(s: Seq<u8>) -> bool {
    1 <= s.len() <= 4 && spec_all_hex(s)
}

/// Value of a hex digit string, most significant digit first.
pub open spec fn spec_hex_val(s: Seq<u8>) -> int
    decreases s.len(),
{
    if s.len() == 0 {
        0
    } else {
        spec_hex_val(s.drop_last()) * 16 + (match spec_hex_digit_val(s.last()) {
            Some(v) => v as int,
            None => 0,
        })
    }
}

/// A hex group's value is bounded by sixteen to its length.
proof fn lemma_hex_val_bound(s: Seq<u8>)
    requires
        s.len() <= 4,
    ensures
        0 <= spec_hex_val(s) < 0x10000,
        s.len() <= 3 ==> spec_hex_val(s) < 0x1000,
        s.len() <= 2 ==> spec_hex_val(s) < 0x100,
        s.len() <= 1 ==> spec_hex_val(s) < 0x10,
    decreases s.len(),
{
    if s.len() > 0 {
        lemma_hex_val_bound(s.drop_last());
    }
}

/// Parses one hex group of at most four digits.
fn parse_hex_group(s: &[u8]) -> (r: Option<u16>)
    ensures
        r is Some <==> spec_hex_group_ok(s@),
        r matches Some(v) ==> v as int == spec_hex_val(s@),
{
    let n = s.len();
    if n == 0 || n > 4 {
        return None;
    }
    let mut val: u32 = 0;
    let mut i: usize = 0;
    while i < n
        invariant
            n == s@.len(),
            n <= 4,
            0 <= i <= n,
            forall|k: int| 0 <= k < i ==> spec_hex_digit_val(s@[k]) is Some,
            val == spec_hex_val(s@.take(i as int)),
            val < 0x10000,
        decreases n - i,
    {
        let b = s[i];
        let d: u32 = if 48 <= b && b <= 57 {
            (b - 48) as u32
        } else if 97 <= b && b <= 102 {
            (b - 87) as u32
        } else if 65 <= b && b <= 70 {
            (b - 55) as u32
        } else {
            proof {
                assert(spec_hex_digit_val(s@[i as int]) is None);
                assert(!spec_all_hex(s@));
            }
            return None;
        };
        proof {
            assert(s@.take(i + 1).drop_last() =~= s@.take(i as int));
            assert(s@.take(i + 1).last() == s@[i as int]);
            lemma_hex_val_bound(s@.take(i as int));
        }
        val = val * 16 + d;
        proof {
            lemma_hex_val_bound(s@.take(i + 1));
        }
        i = i + 1;
    }
    proof {
        assert(s@.take(n as int) =~= s@);
    }
    Some(val as u16)
}

/// First index where two colons stand together.
pub open spec fn spec_find_dc(s: Seq<u8>) -> Option<int>
    decreases s.len(),
{
    if s.len() < 2 {
        None
    } else if s[0] == 58 && s[1] == 58 {
        Some(0)
    } else {
        match spec_find_dc(s.drop_first()) {
            Some(i) => Some(i + 1),
            None => None,
        }
    }
}

/// `spec_find_dc` returns the first double colon, if any.
proof fn lemma_find_dc_first(s: Seq<u8>)
    ensures
        match spec_find_dc(s) {
            Some(i) => {
                &&& 0 <= i <= s.len() - 2
                &&& s[i] == 58 && s[i + 1] == 58
                &&& forall|j: int| 0 <= j < i ==> !(#[trigger] s[j] == 58 && s[j + 1] == 58)
            },
            None => forall|j: int| 0 <= j < s.len() - 1 ==> !(#[trigger] s[j] == 58 && s[j + 1] == 58),
        },
    decreases s.len(),
{
    if s.len() >= 2 && !(s[0] == 58 && s[1] == 58) {
        let t = s.drop_first();
        lemma_find_dc_first(t);
        match spec_find_dc(t) {
            Some(i) => {
                assert forall|j: int| 0 <= j < i + 1 implies !(#[trigger] s[j] == 58 && s[j + 1] == 58) by {
                    if j > 0 {
                        assert(s[j] == t[j - 1] && s[j + 1] == t[j]);
                    }
                }
            },
            None => {
                assert forall|j: int| 0 <= j < s.len() - 1 implies !(#[trigger] s[j] == 58 && s[j
                    + 1] == 58) by {
                    if j > 0 {
                        assert(s[j] == t[j - 1] && s[j + 1] == t[j]);
                    }
                }
            },
        }
    }
}

/// Finds the first double colon.
fn find_double_colon(s: &[u8]) -> (r: Option<usize>)
    ensures
        match r {
            Some(i) => spec_find_dc(s@) == Some(i as int),
            None => spec_find_dc(s@) is None,
        },
{
    let n = s.len();
    if n < 2 {
        proof {
            lemma_find_dc_first(s@);
        }
        return None;
    }
    let mut i: usize = 0;
    while i < n - 1
        invariant
            n == s@.len(),
            2 <= n,
            0 <= i <= n - 1,
            forall|j: int| 0 <= j < i ==> !(#[trigger] s@[j] == 58 && s@[j + 1] == 58),
        decreases n - i,
    {
        if s[i] == 58 && s[i + 1] == 58 {
            proof {
                lemma_find_dc_first(s@);
            }
            return Some(i);
        }
        i = i + 1;
    }
    proof {
        lemma_find_dc_first(s@);
    }
    None
}

/// The group values of a colon-separated list of hex groups; a trailing
/// dotted-decimal IPv4 literal counts as two groups when `allow_v4`
/// holds. `None` when the text is not such a list.
pub open spec fn spec_parse_groups(s: Seq<u8>, allow_v4: bool) -> Option<Seq<u16>>
    decreases s.len(),
    via spec_parse_groups_dec
{
    if s.len() == 0 {
        None
    } else {
        match spec_find(s, 58) {
            None => {
                if spec_hex_group_ok(s) {
                    Some(seq![spec_hex_val(s) as u16])
                } else if allow_v4 {
                    match spec_parse_ipv4(s) {
                        Some(a) => Some(seq![(a as int / 0x10000) as u16, (a as int % 0x10000) as u16]),
                        None => None,
                    }
                } else {
                    None
                }
            },
            Some(i) => {
                let g = s.take(i);
                let rest = s.skip(i + 1);
                if !spec_hex_group_ok(g) {
                    None
                } else {
                    match spec_parse_groups(rest, allow_v4) {
                        Some(gs) => Some(seq![spec_hex_val(g) as u16] + gs),
                        None => None,
                    }
                }
            },
        }
    }
}

#[via_fn]
proof fn spec_parse_groups_dec(s: Seq<u8>, allow_v4: bool) {
    lemma_find_first(s, 58);
}

/// The 128-bit value of eight groups, most significant group first.
pub open spec fn spec_groups_val(gs: Seq<u16>) -> int
    decreases gs.len(),
{
    if gs.len() == 0 {
        0
    } else {
        spec_groups_val(gs.drop_last()) * 0x10000 + gs.last()
    }
}

/// Sixteen-bit powers: the bound on the value of `n` groups.
pub open spec fn spec_pow_2_16(n: nat) -> int
    decreases n,
{
    if n == 0 {
        1
    } else {
        0x10000 * spec_pow_2_16((n - 1) as nat)
    }
}

proof fn lemma_pow_2_16_pos(n: nat)
    ensures
        spec_pow_2_16(n) >= 1,
    decreases n,
{
    if n > 0 {
        lemma_pow_2_16_pos((n - 1) as nat);
    }
}

proof fn lemma_pow_2_16_mono(a: nat, b: nat)
    requires
        a <= b,
    ensures
        spec_pow_2_16(a) <= spec_pow_2_16(b),
    decreases b,
{
    if a < b {
        lemma_pow_2_16_mono(a, (b - 1) as nat);
        lemma_pow_2_16_pos((b - 1) as nat);
    }
}

/// The value of `n` groups lies below the `n`-th power of 2^16.
proof fn lemma_groups_val_bound(gs: Seq<u16>)
    ensures
        0 <= spec_groups_val(gs) < spec_pow_2_16(gs.len()),
    decreases gs.len(),
{
    if gs.len() > 0 {
        lemma_groups_val_bound(gs.drop_last());
    }
}

/// Folds eight groups into the 128-bit address value.
fn groups_to_u128(gs: &Vec<u16>) -> (r: u128)
    requires
        gs@.len() == 8,
    ensures
        r as int == spec_groups_val(gs@),
{
    let mut acc: u128 = 0;
    let mut i: usize = 0;
    proof {
        assert(gs@.take(0) =~= Seq::<u16>::empty());
    }
    while i < 8
        invariant
            gs@.len() == 8,
            0 <= i <= 8,
            acc as int == spec_groups_val(gs@.take(i as int)),
            (acc as int) < spec_pow_2_16(i as nat),
        decreases 8 - i,
    {
        proof {
            assert(gs@.take(i + 1).drop_last() =~= gs@.take(i as int));
            assert(gs@.take(i + 1).last() == gs@[i as int]);
            lemma_pow_2_16_mono(i as nat, 7);
            assert(spec_pow_2_16(7) == 0x10000 * spec_pow_2_16(6));
            assert(spec_pow_2_16(6) == 0x10000 * spec_pow_2_16(5));
            assert(spec_pow_2_16(5) == 0x10000 * spec_pow_2_16(4));
            assert(spec_pow_2_16(4) == 0x10000 * spec_pow_2_16(3));
            assert(spec_pow_2_16(3) == 0x10000 * spec_pow_2_16(2));
            assert(spec_pow_2_16(2) == 0x10000 * spec_pow_2_16(1));
            assert(spec_pow_2_16(1) == 0x10000 * spec_pow_2_16(0));
            assert(spec_pow_2_16(0) == 1);
        }
        acc = acc * 0x10000 + (gs[i] as u128);
        i = i + 1;
    }
    proof {
        assert(gs@.take(8) =~= gs@);
    }
    acc
}

/// Parses a colon-separated group list, building the group values.
fn parse_groups(s: &[u8], allow_v4: bool) -> (r: Option<Vec<u16>>)
    ensures
        match r {
            Some(v) => spec_parse_groups(s@, allow_v4) == Some(v@),
            None => spec_parse_groups(s@, allow_v4) is None,
        },
    decreases s@.len(),
{
    if s.len() == 0 {
        return None;
    }
    match find_byte(s, 58) {
        None => {
            match parse_hex_group(s) {
                Some(v) => {
                    let mut out: Vec<u16> = Vec::new();
                    out.push(v);
                    proof {
                        assert(out@ =~= seq![spec_hex_val(s@) as u16]);
                    }
                    Some(out)
                },
                None => {
                    if allow_v4 {
                        match parse_ipv4(s) {
                            Some(a) => {
                                let mut out: Vec<u16> = Vec::new();
                                out.push((a / 0x10000) as u16);
                                out.push((a % 0x10000) as u16);
                                proof {
                                    assert(out@ =~= seq![
                                        (a as int / 0x10000) as u16,
                                        (a as int % 0x10000) as u16,
                                    ]);
                                }
                                Some(out)
                            },
                            None => None,
                        }
                    } else {
                        None
                    }
                },
            }
        },
        Some(i) => {
            proof {
                lemma_find_first(s@, 58);
            }
            let n = s.len();
            let g = &s[0..i];
            let rest = &s[i + 1..n];
            proof {
                assert(g@ =~= s@.take(i as int));
                assert(rest@ =~= s@.skip(i + 1));
            }
            match parse_hex_group(g) {
                None => None,
                Some(v) => {
                    match parse_groups(rest, allow_v4) {
                        None => None,
                        Some(gs) => {
                            let mut out: Vec<u16> = Vec::new();
                            out.push(v);
                            let mut k: usize = 0;
                            let m = gs.len();
                            while k < m
                                invariant
                                    m == gs@.len(),
                                    0 <= k <= m,
                                    out@ == seq![v].add(gs@.take(k as int)),
                                decreases m - k,
                            {
                                out.push(gs[k]);
                                proof {
                                    assert(gs@.take(k + 1) =~= gs@.take(k as int).push(
                                        gs@[k as int],
                                    ));
                                    assert(seq![v].add(gs@.take(k + 1)) =~= seq![v].add(
                                        gs@.take(k as int),
                                    ).push(gs@[k as int]));
                                }
                                k = k + 1;
                            }
                            proof {
                                assert(gs@.take(m as int) =~= gs@);
                                assert(out@ =~= seq![spec_hex_val(g@) as u16] + gs@);
                            }
                            Some(out)
                        },
                    }
                },
            }
        },
    }
}

/// Value of an IPv6 literal: eight colon-separated hex groups, at most
/// one `::` standing for the missing zero groups, optionally a trailing
/// embedded dotted-decimal IPv4. `None` when the text is not one.
pub open spec fn spec_parse_ipv6(s: Seq<u8>) -> Option<u128> {
    match spec_find_dc(s) {
        None => match spec_parse_groups(s, true) {
            Some(gs) => {
                if gs.len() == 8 {
                    Some(spec_groups_val(gs) as u128)
                } else {
                    None
                }
            },
            None => None,
        },
        Some(i) => {
            let left = s.take(i);
            let right = s.skip(i + 2);
            if spec_find_dc(right) is Some {
                None
            } else {
                let lg = if left.len() == 0 {
                    Some(Seq::<u16>::empty())
                } else {
                    spec_parse_groups(left, false)
                };
                let rg = if right.len() == 0 {
                    Some(Seq::<u16>::empty())
                } else {
                    spec_parse_groups(right, true)
                };
                match (lg, rg) {
                    (Some(l), Some(rr)) => {
                        if l.len() + rr.len() <= 7 {
                            Some(
                                spec_groups_val(
                                    l + Seq::new((8 - l.len() - rr.len()) as nat, |_k: int| 0u16)
                                        + rr,
                                ) as u128,
                            )
                        } else {
                            None
                        }
                    },
                    _ => None,
                }
            }
        },
    }
}

/// Parses an IPv6 literal.
pub fn parse_ipv6(s: &[u8]) -> (r: Option<u128>)
    ensures
        match r {
            Some(a) => spec_parse_ipv6(s@) == Some(a),
            None => spec_parse_ipv6(s@) is None,
        },
{
    match find_double_colon(s) {
        None => {
            match parse_groups(s, true) {
                Some(gs) => {
                    if gs.len() == 8 {
                        proof {
                            lemma_groups_val_bound(gs@);
                            assert(spec_pow_2_16(8) == 0x10000 * spec_pow_2_16(7));
                            assert(spec_pow_2_16(7) == 0x10000 * spec_pow_2_16(6));
                            assert(spec_pow_2_16(6) == 0x10000 * spec_pow_2_16(5));
                            assert(spec_pow_2_16(5) == 0x10000 * spec_pow_2_16(4));
                            assert(spec_pow_2_16(4) == 0x10000 * spec_pow_2_16(3));
                            assert(spec_pow_2_16(3) == 0x10000 * spec_pow_2_16(2));
                            assert(spec_pow_2_16(2) == 0x10000 * spec_pow_2_16(1));
                            assert(spec_pow_2_16(1) == 0x10000 * spec_pow_2_16(0));
                        }
                        Some(groups_to_u128(&gs))
                    } else {
                        None
                    }
                },
                None => None,
            }
        },
        Some(i) => {
            proof {
                lemma_find_dc_first(s@);
            }
            let n = s.len();
            let left = &s[0..i];
            let right = &s[i + 2..n];
            proof {
                assert(left@ =~= s@.take(i as int));
                assert(right@ =~= s@.skip(i + 2));
            }
            if find_double_colon(right).is_some() {
                return None;
            }
            let lg = if left.len() == 0 {
                Vec::new()
            } else {
                match parse_groups(left, false) {
                    Some(v) => v,
                    None => {
                        return None;
                    },
                }
            };
            let rg = if right.len() == 0 {
                Vec::new()
            } else {
                match parse_groups(right, true) {
                    Some(v) => v,
                    None => {
                        return None;
                    },
                }
            };
            proof {
                assert(left@.len() == 0 ==> lg@ =~= Seq::<u16>::empty());
                assert(right@.len() == 0 ==> rg@ =~= Seq::<u16>::empty());
            }
            if lg.len() > 7 || rg.len() > 7 - lg.len() {
                return None;
            }
            let fill = 8 - lg.len() - rg.len();
            let mut full: Vec<u16> = Vec::new();
            let mut k: usize = 0;
            let ln = lg.len();
            while k < ln
                invariant
                    ln == lg@.len(),
                    0 <= k <= ln,
                    full@ == lg@.take(k as int),
                decreases ln - k,
            {
                full.push(lg[k]);
                proof {
                    assert(lg@.take(k + 1) =~= lg@.take(k as int).push(lg@[k as int]));
                }
                k = k + 1;
            }
            proof {
                assert(lg@.take(ln as int) =~= lg@);
            }
            let mut z: usize = 0;
            while z < fill
                invariant
                    0 <= z <= fill,
                    fill == 8 - lg@.len() - rg@.len(),
                    full@ == lg@ + Seq::new(z as nat, |_k: int| 0u16),
                decreases fill - z,
            {
                full.push(0);
                proof {
                    assert(lg@ + Seq::new((z + 1) as nat, |_k: int| 0u16) =~= (lg@ + Seq::new(
                        z as nat,
                        |_k: int| 0u16,
                    )).push(0u16));
                }
                z = z + 1;
            }
            let rn = rg.len();
            let ghost zeros = Seq::new(fill as nat, |_k: int| 0u16);
            let mut k2: usize = 0;
            while k2 < rn
                invariant
                    rn == rg@.len(),
                    0 <= k2 <= rn,
                    zeros == Seq::new(fill as nat, |_k: int| 0u16),
                    full@ == lg@ + zeros + rg@.take(k2 as int),
                decreases rn - k2,
            {
                full.push(rg[k2]);
                proof {
                    assert(rg@.take(k2 + 1) =~= rg@.take(k2 as int).push(rg@[k2 as int]));
                    assert(lg@ + zeros + rg@.take(k2 + 1) =~= (lg@ + zeros + rg@.take(
                        k2 as int,
                    )).push(rg@[k2 as int]));
                }
                k2 = k2 + 1;
            }
            proof {
                assert(rg@.take(rn as int) =~= rg@);
                assert(full@.len() == 8);
                lemma_groups_val_bound(full@);
                assert(spec_pow_2_16(8) == 0x10000 * spec_pow_2_16(7));
                assert(spec_pow_2_16(7) == 0x10000 * spec_pow_2_16(6));
                assert(spec_pow_2_16(6) == 0x10000 * spec_pow_2_16(5));
                assert(spec_pow_2_16(5) == 0x10000 * spec_pow_2_16(4));
                assert(spec_pow_2_16(4) == 0x10000 * spec_pow_2_16(3));
                assert(spec_pow_2_16(3) == 0x10000 * spec_pow_2_16(2));
                assert(spec_pow_2_16(2) == 0x10000 * spec_pow_2_16(1));
                assert(spec_pow_2_16(1) == 0x10000 * spec_pow_2_16(0));
            }
            Some(groups_to_u128(&full))
        },
    }
}

// ---------------------------------------------------------------------
// Target validation
// ---------------------------------------------------------------------

/// How the filter reads a host string: a literal address, or a DNS name
/// that must be resolved.
pub open spec fn spec_parse_host(h: Seq<u8>) -> Option<IpAddress> {
    if h.len() >= 2 && h[0] == 91 && h.last() == 93 {
        match spec_parse_ipv6(h.subrange(1, h.len() - 1)) {
            Some(a) => Some(IpAddress::V6(a)),
            None => None,
        }
    } else {
        match spec_parse_ipv4(h) {
            Some(a) => Some(IpAddress::V4(a)),
            None => match spec_parse_ipv6(h) {
                Some(a) => Some(IpAddress::V6(a)),
                None => None,
            },
        }
    }
}

/// Reads a host string as a literal address if it is one; brackets
/// around an IPv6 literal are accepted.
pub fn parse_host(host: &str) -> (r: Option<IpAddress>)
    ensures
        r == spec_parse_host(encode_utf8(host@)),
{
    let h = host.as_bytes();
    let n = h.len();
    if n >= 2 && h[0] == 91 && h[n - 1] == 93 {
        let inner = &h[1..n - 1];
        proof {
            assert(inner@ =~= h@.subrange(1, h@.len() - 1));
        }
        match parse_ipv6(inner) {
            Some(a) => Some(IpAddress::V6(a)),
            None => None,
        }
    } else {
        match parse_ipv4(h) {
            Some(a) => Some(IpAddress::V4(a)),
            None => match parse_ipv6(h) {
                Some(a) => Some(IpAddress::V6(a)),
                None => None,
            },
        }
    }
}

/// Whether the port is in the allowed set.
pub fn port_allowed(port: u16, allowed_ports: &Vec<u16>) -> (r: bool)
    ensures
        r == allowed_ports@.contains(port),
{
    let n = allowed_ports.len();
    let mut i: usize = 0;
    while i < n
        invariant
            n == allowed_ports@.len(),
            0 <= i <= n,
            forall|j: int| 0 <= j < i ==> allowed_ports@[j] != port,
        decreases n - i,
    {
        if allowed_ports[i] == port {
            return true;
        }
        i = i + 1;
    }
    false
}

/// The filter's decision on a host string and port.
pub open spec fn spec_validate_target(h: Seq<u8>, port: u16, allowed_ports: Seq<u16>) -> Result<
    TargetCheck,
    FilterError,
> {
    if !allowed_ports.contains(port) {
        Err(FilterError::PortNotAllowed)
    } else {
        match spec_parse_host(h) {
            Some(ip) => match spec_block(ip) {
                Some(reason) => Err(FilterError::BlockedAddress(reason)),
                None => Ok(TargetCheck::Usable(Endpoint { ip, port })),
            },
            None => Ok(TargetCheck::NeedsResolution),
        }
    }
}

/// Decides a target host and port against the policy: the port must be
/// allowed, and a literal address must lie outside every blocked range.
/// A DNS name is returned to the caller for resolution.
pub fn validate_target(host: &str, port: u16, allowed_ports: &Vec<u16>) -> (r: Result<
    TargetCheck,
    FilterError,
>)
    ensures
        r == spec_validate_target(encode_utf8(host@), port, allowed_ports@),
{
    if !port_allowed(port, allowed_ports) {
        return Err(FilterError::PortNotAllowed);
    }
    match parse_host(host) {
        Some(ip) => match block_reason(&ip) {
            Some(reason) => Err(FilterError::BlockedAddress(reason)),
            None => Ok(TargetCheck::Usable(Endpoint { ip, port })),
        },
        None => Ok(TargetCheck::NeedsResolution),
    }
}

/// First blocked address in a resolved list, if any.
pub open spec fn spec_first_blocked(addrs: Seq<IpAddress>) -> Option<int>
    decreases addrs.len(),
{
    if addrs.len() == 0 {
        None
    } else if spec_block(addrs[0]) is Some {
        Some(0)
    } else {
        match spec_first_blocked(addrs.drop_first()) {
            Some(i) => Some(i + 1),
            None => None,
        }
    }
}

/// `spec_first_blocked` returns the first blocked index, if any.
proof fn lemma_first_blocked(addrs: Seq<IpAddress>)
    ensures
        match spec_first_blocked(addrs) {
            Some(i) => {
                &&& 0 <= i < addrs.len()
                &&& spec_block(addrs[i]) is Some
                &&& forall|j: int| 0 <= j < i ==> spec_block(addrs[j]) is None
            },
            None => forall|j: int| 0 <= j < addrs.len() ==> spec_block(addrs[j]) is None,
        },
    decreases addrs.len(),
{
    if addrs.len() > 0 && !(spec_block(addrs[0]) is Some) {
        let t = addrs.drop_first();
        lemma_first_blocked(t);
        match spec_first_blocked(t) {
            Some(i) => {
                assert forall|j: int| 0 <= j < i + 1 implies spec_block(addrs[j]) is None by {
                    if j > 0 {
                        assert(addrs[j] == t[j - 1]);
                    }
                }
            },
            None => {
                assert forall|j: int| 0 <= j < addrs.len() implies spec_block(
                    addrs[j],
                ) is None by {
                    if j > 0 {
                        assert(addrs[j] == t[j - 1]);
                    }
                }
            },
        }
    }
}

/// The filter's decision on a resolved address list and port.
pub open spec fn spec_validate_resolved(
    addrs: Seq<IpAddress>,
    port: u16,
    allowed_ports: Seq<u16>,
) -> Result<Endpoint, FilterError> {
    if !allowed_ports.contains(port) {
        Err(FilterError::PortNotAllowed)
    } else if addrs.len() == 0 {
        Err(FilterError::ResolutionFailed)
    } else {
        match spec_first_blocked(addrs) {
            Some(i) => Err(
                FilterError::BlockedAddress(
                    match spec_block(addrs[i]) {
                        Some(reason) => reason,
                        None => BlockReason::Unspecified,
                    },
                ),
            ),
            None => Ok(Endpoint { ip: addrs[0], port }),
        }
    }
}

/// Decides a resolved target: the port must be allowed, the list must
/// not be empty, and every resolved address must lie outside the blocked
/// ranges; the endpoint is the first address.
pub fn validate_resolved(addrs: &Vec<IpAddress>, port: u16, allowed_ports: &Vec<u16>) -> (r:
    Result<Endpoint, FilterError>)
    ensures
        r == spec_validate_resolved(addrs@, port, allowed_ports@),
{
    if !port_allowed(port, allowed_ports) {
        return Err(FilterError::PortNotAllowed);
    }
    let n = addrs.len();
    if n == 0 {
        return Err(FilterError::ResolutionFailed);
    }
    let mut i: usize = 0;
    while i < n
        invariant
            n == addrs@.len(),
            n > 0,
            allowed_ports@.contains(port),
            0 <= i <= n,
            forall|j: int| 0 <= j < i ==> spec_block(addrs@[j]) is None,
        decreases n - i,
    {
        match block_reason(&addrs[i]) {
            Some(reason) => {
                proof {
                    lemma_first_blocked(addrs@);
                    match spec_first_blocked(addrs@) {
                        Some(k) => {
                            if k < i {
                                assert(spec_block(addrs@[k]) is None);
                            }
                            if k > i {
                                assert(spec_block(addrs@[i as int]) is None);
                            }
                            assert(k == i);
                        },
                        None => {
                            assert(spec_block(addrs@[i as int]) is None);
                        },
                    }
                }
                return Err(FilterError::BlockedAddress(reason));
            },
            None => {},
        }
        i = i + 1;
    }
    proof {
        lemma_first_blocked(addrs@);
    }
    Ok(Endpoint { ip: addrs[0], port })
}

} // verus!
