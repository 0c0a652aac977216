use vstd::prelude::*;
use vstd::string::*;

verus! {

/// Why a broker address could not be read.
#[derive(Clone, Copy, PartialEq, Eq, Structural, Debug)]
pub enum AddressError {
    /// No `:` separates host and port.
    MissingPort,
    /// What follows the first `:` is not a port number.
    InvalidPort,
}

pub open spec fn is_digit(c: char) -> bool {
    '0' <= c && c <= '9'
}

pub open spec fn all_digits(d: Seq<char>) -> bool {
    forall|i: int| 0 <= i < d.len() ==> is_digit(#[trigger] d[i])
}

/// The decimal number that the digits `d` spell.
pub open spec fn digits_value(d: Seq<char>) -> nat
    decreases d.len(),
{
    if d.len() == 0 {
        0
    } else {
        10 * digits_value(d.drop_last()) + (d.last() as nat - '0' as nat) as nat
    }
}

/// An unsigned number as the standard library reads one: an optional `+`,
/// then one or more decimal digits whose value is at most `limit`.
pub open spec fn number_value(d: Seq<char>, limit: nat) -> Option<nat> {
    let ds = if d.len() > 0 && d[0] == '+' {
        d.drop_first()
    } else {
        d
    };
    if ds.len() > 0 && all_digits(ds) && digits_value(ds) <= limit {
        Some(digits_value(ds))
    } else {
        None
    }
}

/// A port number: an unsigned number that fits in 16 bits.
pub open spec fn port_value(d: Seq<char>) -> Option<u16> {
    match number_value(d, u16::MAX as nat) {
        Some(v) => Some(v as u16),
        None => None,
    }
}

/// `k` is the position of the first `:` in `s`.
pub open spec fn first_colon_at(s: Seq<char>, k: int) -> bool {
    0 <= k < s.len() && s[k] == ':' && forall|j: int| 0 <= j < k ==> s[j] != ':'
}

/// Host and port of a `host:port` address, split at the first `:`.
pub open spec fn address_of(s: Seq<char>) -> Result<(Seq<char>, u16), AddressError> {
    if exists|k: int| first_colon_at(s, k) {
        let k = choose|k: int| first_colon_at(s, k);
        match port_value(s.skip(k + 1)) {
            Some(p) => Ok((s.take(k), p)),
            None => Err(AddressError::InvalidPort),
        }
    } else {
        Err(AddressError::MissingPort)
    }
}

proof fn lemma_digits_grow(d: Seq<char>, i: int, j: int)
    requires
        0 <= i <= j <= d.len(),
    ensures
        digits_value(d.take(i)) <= digits_value(d.take(j)),
    decreases j - i,
{
    if i < j {
        lemma_digits_grow(d, i, j - 1);
        assert(d.take(j).drop_last() =~= d.take(j - 1));
    }
}

/// The unsigned number, at most `limit`, spelled by the characters of `s`
/// from `from` on.
pub fn parse_number(s: &str, from: usize, limit: u32) -> (r: Option<u32>)
    requires
        from <= s@.len(),
    ensures
        match number_value(s@.skip(from as int), limit as nat) {
            Some(v) => r == Some(v as u32),
            None => r is None,
        },
{
    let len = s.unicode_len();
    let ghost d = s@.skip(from as int);
    let mut start: usize = from;
    if from < len && s.get_char(from) == '+' {
        start = from + 1;
    }
    let ghost ds = s@.skip(start as int);
    assert(ds =~= if d.len() > 0 && d[0] == '+' {
        d.drop_first()
    } else {
        d
    });
    if start == len {
        return None;
    }
    let mut value: u64 = 0;
    let mut i: usize = start;
    while i < len
        invariant
            start <= i <= len,
            len == s@.len(),
            ds == s@.skip(start as int),
            d == s@.skip(from as int),
            ds == (if d.len() > 0 && d[0] == '+' {
                d.drop_first()
            } else {
                d
            }),
            all_digits(ds.take(i - start)),
            value == digits_value(ds.take(i - start)),
            value <= limit,
        decreases len - i,
    {
        let c = s.get_char(i);
        assert(ds[i - start] == c);
        if !('0' <= c && c <= '9') {
            assert(!is_digit(ds[i - start]));
            assert(!all_digits(ds));
            assert(number_value(d, limit as nat) is None);
            return None;
        }
        proof {
            assert(ds.take(i + 1 - start).drop_last() =~= ds.take(i - start));
            assert(ds.take(i + 1 - start).last() == c);
        }
        let next = value * 10 + (c as u64 - '0' as u64);
        if next > limit as u64 {
            proof {
                lemma_digits_grow(ds, i + 1 - start, ds.len() as int);
                assert(ds.take(ds.len() as int) =~= ds);
                assert(digits_value(ds.take(i + 1 - start)) == next);
                assert(number_value(d, limit as nat) is None);
            }
            return None;
        }
        value = next;
        i = i + 1;
        assert(all_digits(ds.take(i - start)));
    }
    assert(ds.take(i - start) =~= ds);
    Some(value as u32)
}

/// Splits a `host:port` broker address at its first `:` and reads the port.
pub fn parse_broker_address(path: &str) -> (r: Result<(String, u16), AddressError>)
    ensures
        match address_of(path@) {
            Ok((h, p)) => r matches Ok((host, port)) && host@ == h && port == p,
            Err(e) => r == Err::<(String, u16), AddressError>(e),
        },
{
    let len = path.unicode_len();
    let mut k: usize = 0;
    while k < len
        invariant
            k <= len,
            len == path@.len(),
            forall|j: int| 0 <= j < k ==> path@[j] != ':',
        decreases len - k,
    {
        if path.get_char(k) == ':' {
            assert(first_colon_at(path@, k as int));
            assert forall|k2: int| first_colon_at(path@, k2) implies k2 == k by {
                if k2 < k {
                } else if k2 > k {
                    assert(path@[k as int] == ':');
                }
            }
            let host = String::from_str(path.substring_char(0, k));
            return match parse_number(path, k + 1, 65535) {
                Some(port) => Ok((host, port as u16)),
                None => Err(AddressError::InvalidPort),
            };
        }
        k = k + 1;
    }
    Err(AddressError::MissingPort)
}

} // verus!
