//! What holds of all texts and messages.

#![allow(unused_imports)]

use crate::error::{message_of, says_no_keys, LlmBrokerError};
use crate::text::{
    all_ascii, ascii_lower, ascii_lowered, decimal_digits, host_port, without_trailing_slashes,
};
use vstd::prelude::*;

verus! {

/// The number that a run of decimal digits stands for.
pub open spec fn value_of(digits: Seq<char>) -> int
    decreases digits.len(),
{
    if digits.len() == 0 {
        0
    } else {
        10 * value_of(digits.drop_last()) + (digits.last() as u32 - 48)
    }
}

/// A number is written in decimal digits that stand for it, and without a zero in front
/// unless it is zero itself.
pub proof fn law_digits_stand_for_the_number(n: nat)
    ensures
        value_of(decimal_digits(n)) == n,
        decimal_digits(n).len() > 0,
        forall|i: int|
            0 <= i < decimal_digits(n).len() ==> 48 <= (#[trigger] decimal_digits(n)[i]) as u32
                <= 57,
        decimal_digits(n).len() > 1 ==> decimal_digits(n)[0] != '0',
        n > 0 ==> decimal_digits(n)[0] != '0',
    decreases n,
{
    let digits = decimal_digits(n);
    let last = (48u32 + n % 10) as char;
    assert(last as u32 == 48 + n % 10);
    if n < 10 {
        assert(digits =~= seq![last]);
        assert(digits.drop_last() =~= Seq::empty());
        assert(value_of(Seq::<char>::empty()) == 0);
    } else {
        let front = decimal_digits(n / 10);
        law_digits_stand_for_the_number(n / 10);
        assert(digits =~= front.push(last));
        assert(digits.drop_last() =~= front);
        assert(digits[0] == front[0]);
        assert forall|i: int| 0 <= i < digits.len() implies 48 <= (#[trigger] digits[i]) as u32
            <= 57 by {
            if i < front.len() {
                assert(digits[i] == front[i]);
            }
        }
    }
}

/// An address is written as the host, a colon, and the digits of the port: the host and
/// the port can be read back from it.
pub proof fn law_host_and_port(host: Seq<char>, port: u16)
    ensures
        ({
            let text = host_port(host, port);
            &&& text.len() > host.len() + 1
            &&& text.take(host.len() as int) == host
            &&& text[host.len() as int] == ':'
            &&& value_of(text.skip(host.len() as int + 1)) == port
        }),
{
    let text = host_port(host, port);
    law_digits_stand_for_the_number(port as nat);
    assert(text.take(host.len() as int) =~= host);
    assert(text.skip(host.len() as int + 1) =~= decimal_digits(port as nat));
}

/// A text loses the slashes at its end and nothing else: what is left is a part of it
/// from its beginning that does not end in a slash, and behind it stood slashes alone.
pub proof fn law_trailing_slashes(s: Seq<char>)
    ensures
        ({
            let left = without_trailing_slashes(s);
            &&& left.len() <= s.len()
            &&& left == s.take(left.len() as int)
            &&& forall|i: int| left.len() <= i < s.len() ==> #[trigger] s[i] == '/'
            &&& left.len() > 0 ==> left.last() != '/'
        }),
    decreases s.len(),
{
    if s.len() > 0 && s.last() == '/' {
        let rest = s.drop_last();
        law_trailing_slashes(rest);
        let left = without_trailing_slashes(s);
        assert(rest.take(left.len() as int) =~= s.take(left.len() as int));
        assert forall|i: int| left.len() <= i < s.len() implies #[trigger] s[i] == '/' by {
            if i < rest.len() {
                assert(rest[i] == s[i]);
            }
        }
    } else {
        assert(s.take(s.len() as int) =~= s);
    }
}

/// In lower case the letters from `A` to `Z` are those from `a` to `z`, and all other
/// characters stay.
pub proof fn law_lower_case(s: Seq<char>)
    ensures
        ascii_lowered(s).len() == s.len(),
        forall|i: int|
            0 <= i < s.len() ==> (#[trigger] ascii_lowered(s)[i]) as u32 == if 65 <= s[i] as u32
                <= 90 {
                s[i] as u32 + 32
            } else {
                s[i] as int
            },
        all_ascii(s) <==> forall|i: int| 0 <= i < s.len() ==> (#[trigger] s[i]) as u32 <= 127,
{
    assert forall|i: int| 0 <= i < s.len() implies (#[trigger] ascii_lowered(s)[i]) as u32 == (
    if 65 <= s[i] as u32 <= 90 {
        s[i] as u32 + 32
    } else {
        s[i] as int
    }) by {
        assert(ascii_lowered(s)[i] == ascii_lower(s[i]));
    }
}

/// The message of an error says what went wrong, and then the whole text that the error
/// carries.
pub proof fn law_messages(error: LlmBrokerError, provider: Seq<char>)
    ensures
        match error {
            LlmBrokerError::NoKeysAvailable(s) => message_of(error)
                == "No available keys for provider "@ + s@,
            LlmBrokerError::AllKeysInCooldown(s) => message_of(error)
                == "All keys in cooldown for provider "@ + s@,
            LlmBrokerError::KeyNotFound(s) => message_of(error) == "Key not found: "@ + s@,
            LlmBrokerError::InvalidConfig(s) => message_of(error)
                == "Invalid configuration: "@ + s@,
            LlmBrokerError::ProxyError(s) => message_of(error) == "Proxy error: "@ + s@,
            LlmBrokerError::SerializationError(s) => message_of(error)
                == "Serialization error: "@ + s@,
        },
        says_no_keys(error, provider) ==> message_of(error)
            == "No available keys for provider "@ + provider,
        says_no_keys(error, provider) ==> error is NoKeysAvailable,
{
}

} // verus!
