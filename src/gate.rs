//! The request edge of the ledger: the credential carried by a request, and
//! the identity that a credential validator resolves it to. Every ledger
//! operation is then scoped to that identity's tenant.
use vstd::prelude::*;

use crate::error::LedgerError;

verus! {

/// What a validated credential says of its bearer.
pub struct Identity {
    pub subject: String,
    pub role: String,
    pub tenant: String,
    pub expiry: u64,
}

/// The scheme prefix of an `Authorization` header carrying a bearer credential.
pub open spec fn bearer_prefix() -> Seq<char> {
    seq!['B', 'e', 'a', 'r', 'e', 'r', ' ']
}

/// `header` starts with the bearer scheme prefix.
pub open spec fn is_bearer(header: Seq<char>) -> bool {
    header.len() >= 7 && header.take(7) == bearer_prefix()
}

/// The credential of an `Authorization` header value: what follows the
/// `Bearer ` prefix. A header without that prefix is refused.
pub fn bearer_token(header: &str) -> (r: Result<String, LedgerError>)
    ensures
        is_bearer(header@) <==> r is Ok,
        r matches Ok(t) ==> t@ == header@.skip(7),
        !is_bearer(header@) ==> r == Err::<String, LedgerError>(LedgerError::AuthRejected),
{
    let n = header.unicode_len();
    if n < 7 {
        return Err(LedgerError::AuthRejected);
    }
    let matches_prefix = header.get_char(0) == 'B' && header.get_char(1) == 'e' && header.get_char(2)
        == 'a' && header.get_char(3) == 'r' && header.get_char(4) == 'e' && header.get_char(5) == 'r'
        && header.get_char(6) == ' ';
    if !matches_prefix {
        proof {
            if is_bearer(header@) {
                assert(header@.take(7)[0] == bearer_prefix()[0]);
                assert(header@.take(7)[1] == bearer_prefix()[1]);
                assert(header@.take(7)[2] == bearer_prefix()[2]);
                assert(header@.take(7)[3] == bearer_prefix()[3]);
                assert(header@.take(7)[4] == bearer_prefix()[4]);
                assert(header@.take(7)[5] == bearer_prefix()[5]);
                assert(header@.take(7)[6] == bearer_prefix()[6]);
            }
        }
        return Err(LedgerError::AuthRejected);
    }
    assert(header@.take(7) =~= bearer_prefix());
    let rest = header.substring_char(7, n);
    let t = rest.to_owned();
    assert(t@ =~= header@.skip(7));
    Ok(t)
}

/// `c` is a decimal digit.
pub open spec fn is_digit(c: char) -> bool {
    '0' <= c <= '9'
}

/// The number written by the decimal digits `s`.
pub open spec fn decimal_value(s: Seq<char>) -> nat
    decreases s.len(),
{
    if s.len() == 0 {
        0
    } else {
        decimal_value(s.drop_last()) * 10 + (s.last() as nat - '0' as nat) as nat
    }
}

/// `s` is a well-formed identifier: a non-empty run of decimal digits.
pub open spec fn is_decimal(s: Seq<char>) -> bool {
    s.len() > 0 && forall|i: int| 0 <= i < s.len() ==> is_digit(#[trigger] s[i])
}

proof fn lemma_decimal_value_grows(s: Seq<char>, i: int, j: int)
    requires
        0 <= i <= j <= s.len(),
        forall|k: int| 0 <= k < s.len() ==> is_digit(#[trigger] s[k]),
    ensures
        decimal_value(s.take(i)) <= decimal_value(s.take(j)),
    decreases j - i,
{
    if i < j {
        lemma_decimal_value_grows(s, i, j - 1);
        assert(s.take(j).drop_last() =~= s.take(j - 1));
        assert(s.take(j).last() == s[j - 1]);
    }
}

/// The identifier written in `text`: a non-empty run of decimal digits whose
/// value fits in `usize`. Anything else is refused as malformed.
pub fn parse_id(text: &str) -> (r: Result<usize, LedgerError>)
    ensures
        r is Ok <==> is_decimal(text@) && decimal_value(text@) <= usize::MAX,
        r matches Ok(v) ==> v == decimal_value(text@),
        r is Err ==> r == Err::<usize, LedgerError>(LedgerError::Validation),
{
    let n = text.unicode_len();
    if n == 0 {
        return Err(LedgerError::Validation);
    }
    let mut v: usize = 0;
    let mut i: usize = 0;
    while i < n
        invariant
            n == text@.len(),
            i <= n,
            forall|k: int| 0 <= k < i ==> is_digit(#[trigger] text@[k]),
            v == decimal_value(text@.take(i as int)),
        decreases n - i,
    {
        let c = text.get_char(i);
        if !('0' <= c && c <= '9') {
            return Err(LedgerError::Validation);
        }
        let d = (c as u32 - '0' as u32) as usize;
        proof {
            assert(text@.take(i as int + 1).drop_last() =~= text@.take(i as int));
            assert(text@.take(i as int + 1).last() == c);
        }
        if v > (usize::MAX - d) / 10 {
            proof {
                assert(v * 10 + d > usize::MAX) by (nonlinear_arith)
                    requires
                        v > (usize::MAX - d) / 10,
                        d <= 9,
                ;
                if is_decimal(text@) {
                    lemma_decimal_value_grows(text@, i as int + 1, n as int);
                    assert(text@.take(n as int) =~= text@);
                }
            }
            return Err(LedgerError::Validation);
        }
        proof {
            assert(v * 10 + d <= usize::MAX) by (nonlinear_arith)
                requires
                    v <= (usize::MAX - d) / 10,
                    d <= 9,
            ;
        }
        v = v * 10 + d;
        i = i + 1;
    }
    assert(text@.take(n as int) =~= text@);
    Ok(v)
}

} // verus!
