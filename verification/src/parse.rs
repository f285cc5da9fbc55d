//! Parsing of `address:port` strings, used to validate the backend set and
//! the listening endpoint at startup. An authority is valid when it is
//! ASCII, has a nonempty host before its last colon, and after that colon a
//! nonempty run of decimal digits whose value fits a port number.

use vstd::prelude::*;

verus! {

use vstd::utf8::is_ascii_chars;

/// A decimal digit.
pub open spec fn is_digit_char(c: char) -> bool {
    '0' <= c && c <= '9'
}

/// Numeric value of one digit.
pub open spec fn digit_val(c: char) -> int {
    c as u32 - 48
}

/// Every character is a decimal digit.
pub open spec fn all_digits(s: Seq<char>) -> bool {
    forall|i: int| 0 <= i < s.len() ==> is_digit_char(#[trigger] s[i])
}

/// The number the digit string denotes, most significant digit first.
pub open spec fn digits_val(s: Seq<char>) -> int
    decreases s.len(),
{
    if s.len() == 0 {
        0
    } else {
        digits_val(s.drop_last()) * 10 + digit_val(s.last())
    }
}

/// A digit string denotes a nonnegative number.
pub proof fn lemma_digits_val_nonneg(s: Seq<char>)
    requires
        all_digits(s),
    ensures
        digits_val(s) >= 0,
    decreases s.len(),
{
    if s.len() > 0 {
        lemma_digits_val_nonneg(s.drop_last());
    }
}

/// Appending digits never shrinks the denoted number: every prefix denotes
/// at most what the whole string denotes.
pub proof fn lemma_digits_val_prefix(s: Seq<char>, k: int)
    requires
        all_digits(s),
        0 <= k <= s.len(),
    ensures
        digits_val(s.take(k)) <= digits_val(s),
    decreases s.len() - k,
{
    if k < s.len() {
        lemma_digits_val_prefix(s, k + 1);
        let t = s.take(k + 1);
        assert(t.drop_last() =~= s.take(k));
        lemma_digits_val_nonneg(s.take(k));
        assert(digits_val(t) == digits_val(s.take(k)) * 10 + digit_val(t.last()));
    } else {
        assert(s.take(k) =~= s);
    }
}

/// Index of the last colon in `s`, or `-1` when there is none.
pub open spec fn last_colon(s: Seq<char>) -> int
    decreases s.len(),
{
    if s.len() == 0 {
        -1
    } else if s.last() == ':' {
        s.len() - 1
    } else {
        last_colon(s.drop_last())
    }
}

/// `last_colon` is what its name says: it points at a colon that no later
/// character matches, and it is `-1` exactly when no character is a colon.
pub proof fn lemma_last_colon(s: Seq<char>)
    ensures
        -1 <= last_colon(s) < s.len(),
        last_colon(s) == -1 ==> forall|k: int| 0 <= k < s.len() ==> s[k] != ':',
        last_colon(s) >= 0 ==> {
            &&& last_colon(s) < s.len()
            &&& s[last_colon(s)] == ':'
            &&& forall|k: int| last_colon(s) < k < s.len() ==> s[k] != ':'
        },
    decreases s.len(),
{
    if s.len() > 0 && s.last() != ':' {
        let dl = s.drop_last();
        lemma_last_colon(dl);
        assert(forall|k: int| 0 <= k < dl.len() ==> s[k] == #[trigger] dl[k]);
        if last_colon(s) >= 0 {
            assert(dl[last_colon(s)] == ':');
            assert forall|k: int| last_colon(s) < k < s.len() implies s[k] != ':' by {
                if k < s.len() - 1 {
                    assert(dl[k] != ':');
                }
            }
        } else {
            assert forall|k: int| 0 <= k < s.len() implies s[k] != ':' by {
                if k < s.len() - 1 {
                    assert(dl[k] != ':');
                }
            }
        }
    }
}

/// A well-formed `host:port` string.
pub open spec fn valid_authority(s: Seq<char>) -> bool {
    &&& is_ascii_chars(s)
    &&& 1 <= last_colon(s)
    &&& last_colon(s) + 1 < s.len()
    &&& all_digits(s.subrange(last_colon(s) + 1, s.len() as int))
    &&& digits_val(s.subrange(last_colon(s) + 1, s.len() as int)) <= 65535
}

/// The host part: everything before the last colon.
pub open spec fn authority_host(s: Seq<char>) -> Seq<char> {
    s.subrange(0, last_colon(s))
}

/// The port part: the number after the last colon.
pub open spec fn authority_port(s: Seq<char>) -> int {
    digits_val(s.subrange(last_colon(s) + 1, s.len() as int))
}

/// Splits an `address:port` string, returning its host and port exactly
/// when it is a valid authority and nothing otherwise.
pub fn parse_authority(s: &str) -> (r: Option<(String, u16)>)
    ensures
        r is Some <==> valid_authority(s@),
        (r matches Some(hp) ==> hp.0@ == authority_host(s@) && hp.1 == authority_port(s@)),
{
    if !s.is_ascii() {
        return None;
    }
    let n = s.unicode_len();
    // Locate the last colon.
    let mut j: usize = n;
    let mut colon: usize = n;  // `n` stands for "none found"
    loop
        invariant_except_break
            colon == n,
            forall|k: int| j <= k < n ==> s@[k] != ':',
        invariant
            vstd::string::is_ascii(s),
            n == s@.len(),
            j <= n,
        ensures
            vstd::string::is_ascii(s),
            n == s@.len(),
            colon <= n,
            colon == n ==> last_colon(s@) == -1,
            colon < n ==> last_colon(s@) == colon,
        decreases j,
    {
        if j == 0 {
            proof {
                lemma_last_colon(s@);
                if last_colon(s@) >= 0 {
                    assert(s@[last_colon(s@)] == ':');
                }
            }
            break ;
        }
        j = j - 1;
        let c = s.get_char(j);
        if c == ':' {
            proof {
                lemma_last_colon(s@);
                assert(s@[j as int] == ':');
                if last_colon(s@) == -1 {
                    assert(s@[j as int] != ':');
                }
                if last_colon(s@) > j as int {
                    assert(s@[last_colon(s@)] == ':');
                }
            }
            colon = j;
            break ;
        }
    }
    if colon == n {
        // No colon at all: not an authority.
        return None;
    }
    if colon == 0 {
        // Empty host.
        return None;
    }
    if colon + 1 == n {
        // Empty port.
        return None;
    }
    let ghost digits = s@.subrange(colon + 1, n as int);
    // Parse the port digits, refusing values beyond a port number.
    let mut acc: u32 = 0;
    let mut i: usize = colon + 1;
    while i < n
        invariant
            vstd::string::is_ascii(s),
            n == s@.len(),
            colon + 1 <= i <= n,
            1 <= colon,
            last_colon(s@) == colon,
            digits == s@.subrange(colon + 1, n as int),
            all_digits(digits.take(i - colon - 1)),
            acc == digits_val(digits.take(i - colon - 1)),
            acc <= 65535,
        decreases n - i,
    {
        let c = s.get_char(i);
        if c < '0' || c > '9' {
            proof {
                assert(digits[i - colon - 1] == s@[i as int]);
            }
            return None;
        }
        let d: u32 = c as u32 - 48;
        let next: u32 = acc * 10 + d;
        proof {
            let t = digits.take(i + 1 - colon - 1);
            assert(t.drop_last() =~= digits.take(i - colon - 1));
            assert(t.last() == s@[i as int]);
        }
        if next > 65535 {
            proof {
                if valid_authority(s@) {
                    assert(all_digits(digits));
                    lemma_digits_val_prefix(digits, i + 1 - colon - 1);
                    assert(digits.take(digits.len() as int) =~= digits);
                }
            }
            return None;
        }
        acc = next;
        i = i + 1;
    }
    proof {
        assert(digits.take(digits.len() as int) =~= digits);
    }
    let host_str = s.substring_ascii(0, colon);
    let host = host_str.to_owned();
    Some((host, acc as u16))
}

} // verus!
