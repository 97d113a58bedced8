//! Byte-level text helpers: ASCII case folding, whitespace trimming,
//! byte search, decimal parsing and lowercase hex encoding.

use vstd::prelude::*;

verus! {

/// Lowercases one ASCII byte; other bytes are unchanged.
pub open spec fn spec_ascii_lower(b: u8) -> u8 {
    if 65 <= b <= 90 {
        (b + 32) as u8
    } else {
        b
    }
}

/// Executable ASCII lowercasing of one byte.
pub fn ascii_lower(b: u8) -> (r: u8)
    ensures
        r == spec_ascii_lower(b),
{
    if 65 <= b && b <= 90 {
        b + 32
    } else {
        b
    }
}

/// ASCII whitespace: space, tab, line feed, vertical tab, form feed,
/// carriage return.
pub open spec fn spec_is_space(b: u8) -> bool {
    b == 32 || (9 <= b <= 13)
}

/// First index of `b` in `s`, if any.
pub open spec fn spec_find(s: Seq<u8>, b: u8) -> Option<int>
    decreases s.len(),
{
    if s.len() == 0 {
        None
    } else if s[0] == b {
        Some(0)
    } else {
        match spec_find(s.drop_first(), b) {
            Some(i) => Some(i + 1),
            None => None,
        }
    }
}

/// `spec_find` returns the first occurrence: the index holds `b` and no
/// earlier index does; `None` means `b` does not occur at all.
pub proof fn lemma_find_first(s: Seq<u8>, b: u8)
    ensures
        match spec_find(s, b) {
            Some(i) => 0 <= i < s.len() && s[i] == b && (forall|j: int| 0 <= j < i ==> s[j] != b),
            None => forall|j: int| 0 <= j < s.len() ==> s[j] != b,
        },
    decreases s.len(),
{
    if s.len() != 0 && s[0] != b {
        let t = s.drop_first();
        lemma_find_first(t, b);
        match spec_find(t, b) {
            Some(i) => {
                assert(s[i + 1] == t[i]);
                assert forall|j: int| 0 <= j < i + 1 implies s[j] != b by {
                    if j > 0 {
                        assert(s[j] == t[j - 1]);
                    }
                }
            },
            None => {
                assert forall|j: int| 0 <= j < s.len() implies s[j] != b by {
                    if j > 0 {
                        assert(s[j] == t[j - 1]);
                    }
                }
            },
        }
    }
}

/// Finds the first occurrence of `b` in `s`.
pub fn find_byte(s: &[u8], b: u8) -> (r: Option<usize>)
    ensures
        match r {
            Some(i) => spec_find(s@, b) == Some(i as int),
            None => spec_find(s@, b) is None,
        },
{
    let n = s.len();
    let mut i: usize = 0;
    while i < n
        invariant
            n == s@.len(),
            0 <= i <= n,
            forall|j: int| 0 <= j < i ==> s@[j] != b,
        decreases n - i,
    {
        if s[i] == b {
            proof {
                lemma_find_first(s@, b);
            }
            return Some(i);
        }
        i = i + 1;
    }
    proof {
        lemma_find_first(s@, b);
    }
    None
}

/// Executable test for ASCII whitespace.
pub fn is_space(b: u8) -> (r: bool)
    ensures
        r == spec_is_space(b),
{
    b == 32 || (9 <= b && b <= 13)
}

/// `s` without leading ASCII whitespace.
pub open spec fn spec_trim_front(s: Seq<u8>) -> Seq<u8>
    decreases s.len(),
{
    if s.len() > 0 && spec_is_space(s[0]) {
        spec_trim_front(s.drop_first())
    } else {
        s
    }
}

/// `s` without trailing ASCII whitespace.
pub open spec fn spec_trim_back(s: Seq<u8>) -> Seq<u8>
    decreases s.len(),
{
    if s.len() > 0 && spec_is_space(s.last()) {
        spec_trim_back(s.drop_last())
    } else {
        s
    }
}

/// `s` without leading and trailing ASCII whitespace.
pub open spec fn spec_trim(s: Seq<u8>) -> Seq<u8> {
    spec_trim_back(spec_trim_front(s))
}

/// Strips leading and trailing ASCII whitespace from a byte slice.
pub fn trim_ascii(s: &[u8]) -> (r: &[u8])
    ensures
        r@ == spec_trim(s@),
{
    let n = s.len();
    let mut a: usize = 0;
    proof {
        assert(s@.skip(0) =~= s@);
    }
    while a < n && is_space(s[a])
        invariant
            n == s@.len(),
            0 <= a <= n,
            spec_trim_front(s@) == spec_trim_front(s@.skip(a as int)),
        decreases n - a,
    {
        proof {
            assert(s@.skip(a as int).drop_first() =~= s@.skip(a + 1));
        }
        a = a + 1;
    }
    proof {
        assert(spec_trim_front(s@) =~= s@.skip(a as int)) by {
            if a < n {
                assert(!spec_is_space(s@.skip(a as int)[0]));
            }
        }
    }
    let mut b: usize = n;
    while b > a && is_space(s[b - 1])
        invariant
            n == s@.len(),
            0 <= a <= b <= n,
            spec_trim_back(s@.skip(a as int)) == spec_trim_back(s@.subrange(a as int, b as int)),
        decreases b,
    {
        proof {
            assert(s@.subrange(a as int, b as int).drop_last() =~= s@.subrange(
                a as int,
                b - 1,
            ));
        }
        b = b - 1;
    }
    proof {
        assert(spec_trim_back(s@.skip(a as int)) =~= s@.subrange(a as int, b as int)) by {
            if b > a {
                assert(!spec_is_space(s@.subrange(a as int, b as int).last()));
            }
        }
    }
    &s[a..b]
}

/// ASCII decimal digit.
pub open spec fn spec_is_digit(b: u8) -> bool {
    48 <= b <= 57
}

/// All bytes of `s` are ASCII decimal digits.
pub open spec fn spec_all_digits(s: Seq<u8>) -> bool {
    forall|i: int| 0 <= i < s.len() ==> spec_is_digit(s[i])
}

/// Numeric value of a digit string, most significant digit first.
pub open spec fn spec_digits_val(s: Seq<u8>) -> int
    decreases s.len(),
{
    if s.len() == 0 {
        0
    } else {
        spec_digits_val(s.drop_last()) * 10 + (s.last() - 48)
    }
}

/// The value of a digit string is never negative.
pub proof fn lemma_digits_val_nonneg(s: Seq<u8>)
    requires
        spec_all_digits(s),
    ensures
        spec_digits_val(s) >= 0,
    decreases s.len(),
{
    if s.len() > 0 {
        assert(spec_all_digits(s.drop_last()));
        lemma_digits_val_nonneg(s.drop_last());
    }
}

/// A digit string is worth at least any of its prefixes.
pub proof fn lemma_digits_val_prefix(s: Seq<u8>, k: int)
    requires
        spec_all_digits(s),
        0 <= k <= s.len(),
    ensures
        spec_digits_val(s.take(k)) <= spec_digits_val(s),
    decreases s.len(),
{
    if k == s.len() {
        assert(s.take(k) =~= s);
    } else {
        let d = s.drop_last();
        assert(spec_all_digits(d));
        assert(s.take(k) =~= d.take(k));
        lemma_digits_val_prefix(d, k);
        lemma_digits_val_nonneg(d);
    }
}

/// The numeral with an optional leading `+` removed.
pub open spec fn spec_strip_plus(s: Seq<u8>) -> Seq<u8> {
    if s.len() > 0 && s[0] == 43 {
        s.drop_first()
    } else {
        s
    }
}

/// Value of a decimal numeral: an optional leading `+`, then at least one
/// digit, rejected on overflow of `u64`.
pub open spec fn spec_parse_u64(s: Seq<u8>) -> Option<u64> {
    let t = spec_strip_plus(s);
    if t.len() > 0 && spec_all_digits(t) && spec_digits_val(t) <= u64::MAX {
        Some(spec_digits_val(t) as u64)
    } else {
        None
    }
}

/// Parses an unsigned decimal numeral with an optional leading `+`.
pub fn parse_u64_dec(s: &[u8]) -> (r: Option<u64>)
    ensures
        r == spec_parse_u64(s@),
{
    let n = s.len();
    let mut i: usize = 0;
    if n > 0 && s[0] == 43 {
        i = 1;
    }
    let ghost t = s@.skip(i as int);
    proof {
        if s@.len() > 0 && s@[0] == 43 {
            assert(t =~= s@.drop_first());
        } else {
            assert(t =~= s@);
        }
        assert(t == spec_strip_plus(s@));
    }
    if i == n {
        return None;
    }
    let start = i;
    let mut val: u64 = 0;
    let mut j: usize = start;
    while j < n
        invariant
            n == s@.len(),
            start <= j <= n,
            t == s@.skip(start as int),
            t == spec_strip_plus(s@),
            t.len() == n - start,
            forall|k: int| start <= k < j ==> spec_is_digit(s@[k]),
            val == spec_digits_val(s@.subrange(start as int, j as int)),
        decreases n - j,
    {
        let b = s[j];
        if b < 48 || b > 57 {
            proof {
                assert(t[j - start] == s@[j as int]);
                assert(!spec_all_digits(t));
            }
            return None;
        }
        let d = (b - 48) as u64;
        proof {
            assert(s@.subrange(start as int, j + 1).drop_last() =~= s@.subrange(
                start as int,
                j as int,
            ));
            assert(s@.subrange(start as int, j + 1).last() == s@[j as int]);
        }
        let next = match val.checked_mul(10) {
            Some(v) => v.checked_add(d),
            None => None,
        };
        match next {
            Some(v) => {
                val = v;
            },
            None => {
                proof {
                    if spec_all_digits(t) {
                        assert(t.take(j + 1 - start) =~= s@.subrange(start as int, j + 1));
                        lemma_digits_val_prefix(t, j + 1 - start);
                        assert(spec_digits_val(t) > u64::MAX);
                    }
                }
                return None;
            },
        }
        j = j + 1;
    }
    proof {
        assert(s@.subrange(start as int, n as int) =~= t);
        assert forall|k: int| 0 <= k < t.len() implies spec_is_digit(t[k]) by {
            assert(t[k] == s@[start + k]);
        }
    }
    Some(val)
}

/// Lowercase hex digit for a value below 16.
pub open spec fn spec_hex_digit(n: int) -> u8
    recommends
        0 <= n < 16,
{
    if n < 10 {
        (48 + n) as u8
    } else {
        (87 + n) as u8
    }
}

/// Lowercase hex encoding of a byte string, two digits per byte.
pub open spec fn spec_hex_bytes(s: Seq<u8>) -> Seq<u8>
    decreases s.len(),
{
    if s.len() == 0 {
        Seq::empty()
    } else {
        spec_hex_bytes(s.drop_last()).push(spec_hex_digit(s.last() as int / 16)).push(
            spec_hex_digit(s.last() as int % 16),
        )
    }
}

/// Hex encoding doubles the length.
pub proof fn lemma_hex_bytes_len(s: Seq<u8>)
    ensures
        spec_hex_bytes(s).len() == 2 * s.len(),
    decreases s.len(),
{
    if s.len() > 0 {
        lemma_hex_bytes_len(s.drop_last());
    }
}

/// A byte that occurs at `k` with no earlier occurrence is what
/// `spec_find` returns.
pub proof fn lemma_find_at(s: Seq<u8>, b: u8, k: int)
    requires
        0 <= k < s.len(),
        s[k] == b,
        forall|j: int| 0 <= j < k ==> s[j] != b,
    ensures
        spec_find(s, b) == Some(k),
{
    lemma_find_first(s, b);
    match spec_find(s, b) {
        Some(i) => {
            if i < k {
                assert(s[i] != b);
            }
            if i > k {
                assert(s[k] != b);
            }
        },
        None => {
            assert(s[k] != b);
        },
    }
}

/// Hex encodings hold ASCII digits and lowercase letters only.
pub proof fn lemma_hex_bytes_ascii(s: Seq<u8>)
    ensures
        forall|i: int| 0 <= i < spec_hex_bytes(s).len() ==> #[trigger] spec_hex_bytes(s)[i] < 128,
    decreases s.len(),
{
    if s.len() > 0 {
        lemma_hex_bytes_ascii(s.drop_last());
        lemma_hex_bytes_len(s.drop_last());
    }
}

/// Distinct byte strings have distinct hex encodings.
pub proof fn lemma_hex_bytes_injective(a: Seq<u8>, b: Seq<u8>)
    requires
        spec_hex_bytes(a) == spec_hex_bytes(b),
    ensures
        a == b,
    decreases a.len(),
{
    lemma_hex_bytes_len(a);
    lemma_hex_bytes_len(b);
    if a.len() == 0 {
        assert(a =~= b);
    } else {
        let ha = spec_hex_bytes(a);
        let hb = spec_hex_bytes(b);
        assert(ha.last() == spec_hex_digit(a.last() as int % 16));
        assert(hb.last() == spec_hex_digit(b.last() as int % 16));
        assert(ha.drop_last().last() == spec_hex_digit(a.last() as int / 16));
        assert(hb.drop_last().last() == spec_hex_digit(b.last() as int / 16));
        assert(a.last() as int % 16 == b.last() as int % 16);
        assert(a.last() as int / 16 == b.last() as int / 16);
        assert(a.last() == b.last());
        assert(ha.drop_last().drop_last() =~= spec_hex_bytes(a.drop_last()));
        assert(hb.drop_last().drop_last() =~= spec_hex_bytes(b.drop_last()));
        lemma_hex_bytes_injective(a.drop_last(), b.drop_last());
        assert forall|i: int| 0 <= i < a.len() implies a[i] == b[i] by {
            if i < a.len() - 1 {
                assert(a[i] == a.drop_last()[i]);
                assert(b[i] == b.drop_last()[i]);
            } else {
                assert(a[i] == a.last());
            }
        }
        assert(a =~= b);
    }
}

/// Encodes a byte slice as lowercase hex.
pub fn hex_lower(s: &[u8]) -> (r: Vec<u8>)
    ensures
        r@ == spec_hex_bytes(s@),
{
    let n = s.len();
    let mut out: Vec<u8> = Vec::new();
    let mut i: usize = 0;
    while i < n
        invariant
            n == s@.len(),
            0 <= i <= n,
            out@ == spec_hex_bytes(s@.take(i as int)),
        decreases n - i,
    {
        let b = s[i];
        out.push(if b / 16 < 10 {
            48 + b / 16
        } else {
            87 + b / 16
        });
        out.push(if b % 16 < 10 {
            48 + b % 16
        } else {
            87 + b % 16
        });
        proof {
            assert(s@.take(i + 1).drop_last() =~= s@.take(i as int));
            assert(s@.take(i + 1).last() == s@[i as int]);
        }
        i = i + 1;
    }
    proof {
        assert(s@.take(n as int) =~= s@);
    }
    out
}

/// Byte-slice equality by contents.
pub fn bytes_eq(a: &[u8], b: &[u8]) -> (r: bool)
    ensures
        r == (a@ == b@),
{
    let n = a.len();
    if n != b.len() {
        return false;
    }
    let mut i: usize = 0;
    while i < n
        invariant
            n == a@.len() == b@.len(),
            0 <= i <= n,
            forall|j: int| 0 <= j < i ==> a@[j] == b@[j],
        decreases n - i,
    {
        if a[i] != b[i] {
            return false;
        }
        i = i + 1;
    }
    proof {
        assert(a@ =~= b@);
    }
    true
}

/// Copies a byte vector.
pub fn clone_bytes(v: &Vec<u8>) -> (r: Vec<u8>)
    ensures
        r@ == v@,
{
    let n = v.len();
    let mut out: Vec<u8> = Vec::new();
    let mut i: usize = 0;
    while i < n
        invariant
            n == v@.len(),
            0 <= i <= n,
            out@ == v@.take(i as int),
        decreases n - i,
    {
        out.push(v[i]);
        proof {
            assert(v@.take(i + 1) =~= v@.take(i as int).push(v@[i as int]));
        }
        i = i + 1;
    }
    proof {
        assert(v@.take(n as int) =~= v@);
    }
    out
}

/// String equality by contents.
pub fn str_eq(a: &str, b: &str) -> (r: bool)
    ensures
        r == (a@ == b@),
{
    let ab = a.as_bytes();
    let bb = b.as_bytes();
    let n = ab.len();
    if n != bb.len() {
        return false;
    }
    let mut i: usize = 0;
    while i < n
        invariant
            n == ab@.len() == bb@.len(),
            ab@ == vstd::utf8::encode_utf8(a@) && bb@ == vstd::utf8::encode_utf8(b@),
            0 <= i <= n,
            forall|j: int| 0 <= j < i ==> ab@[j] == bb@[j],
        decreases n - i,
    {
        if ab[i] != bb[i] {
            return false;
        }
        i = i + 1;
    }
    proof {
        assert(vstd::utf8::encode_utf8(a@) =~= vstd::utf8::encode_utf8(b@));
        vstd::utf8::encode_utf8_decode_utf8(a@);
        vstd::utf8::encode_utf8_decode_utf8(b@);
    }
    true
}

} // verus!
