//! Feed identity: the numeric feed ID is parsed from a post's status URL of
//! the form `http(s)://(mobile.)twitter.com/<user>/status/<digits>`, anchored
//! at the start; anything may follow the digits. Rows whose URL does not
//! match are dropped by the reconciler.
use vstd::prelude::*;

use crate::time::{digit_val, is_digit};

verus! {

/// The byte string `https://`.
pub open spec fn https_prefix() -> Seq<u8> {
    seq![104u8, 116u8, 116u8, 112u8, 115u8, 58u8, 47u8, 47u8]
}

/// The byte string `http://`.
pub open spec fn http_prefix() -> Seq<u8> {
    seq![104u8, 116u8, 116u8, 112u8, 58u8, 47u8, 47u8]
}

/// The byte string `mobile.`.
pub open spec fn mobile_prefix() -> Seq<u8> {
    seq![109u8, 111u8, 98u8, 105u8, 108u8, 101u8, 46u8]
}

/// The byte string `twitter.com/`.
pub open spec fn twitter_host() -> Seq<u8> {
    seq![116u8, 119u8, 105u8, 116u8, 116u8, 101u8, 114u8, 46u8, 99u8, 111u8, 109u8, 47u8]
}

/// The byte string `/status/`.
pub open spec fn status_segment() -> Seq<u8> {
    seq![47u8, 115u8, 116u8, 97u8, 116u8, 117u8, 115u8, 47u8]
}

/// The literal occurs in `u` at position `i`.
pub open spec fn lit_at(u: Seq<u8>, i: int, lit: Seq<u8>) -> bool {
    &&& 0 <= i
    &&& i + lit.len() <= u.len()
    &&& u.subrange(i, i + lit.len()) == lit
}

/// A byte the user-name segment may consist of: ASCII letter, digit or `_`.
pub open spec fn is_word_byte(b: u8) -> bool {
    (65 <= b <= 90) || (97 <= b <= 122) || (48 <= b <= 57) || b == 95
}

/// End of the run of word bytes starting at `i`: the first position at or
/// after `i` holding no word byte.
pub open spec fn word_run_end(u: Seq<u8>, i: int) -> int
    decreases u.len() - i,
{
    if i < 0 || i >= u.len() || !is_word_byte(u[i]) {
        i
    } else {
        word_run_end(u, i + 1)
    }
}

/// End of the run of ASCII digits starting at `i`.
pub open spec fn digit_run_end(u: Seq<u8>, i: int) -> int
    decreases u.len() - i,
{
    if i < 0 || i >= u.len() || !is_digit(u[i]) {
        i
    } else {
        digit_run_end(u, i + 1)
    }
}

/// Decimal value of the digits `u[i..j]`.
pub open spec fn digits_val(u: Seq<u8>, i: int, j: int) -> int
    decreases j - i,
{
    if j <= i {
        0
    } else {
        digits_val(u, i, j - 1) * 10 + digit_val(u[j - 1])
    }
}

/// Position right after the scheme, or a negative number when the URL starts
/// with neither `https://` nor `http://`.
pub open spec fn after_scheme(u: Seq<u8>) -> int {
    if lit_at(u, 0, https_prefix()) {
        8
    } else if lit_at(u, 0, http_prefix()) {
        7
    } else {
        -1
    }
}

/// Position right after the host part `(mobile.)twitter.com/`, or a negative
/// number when the URL is not a status URL of that host.
pub open spec fn after_host(u: Seq<u8>) -> int {
    let s = after_scheme(u);
    if s < 0 {
        -1
    } else {
        let h = if lit_at(u, s, mobile_prefix()) {
            s + 7
        } else {
            s
        };
        if lit_at(u, h, twitter_host()) {
            h + 12
        } else {
            -1
        }
    }
}

/// The numeric ID a status URL carries: present exactly when, after the host,
/// a non-empty run of word bytes is followed by `/status/` and at least one
/// digit; the value is the full digit run's decimal value, whatever follows.
pub open spec fn feed_id_of(u: Seq<u8>) -> Option<int> {
    let p = after_host(u);
    if p < 0 {
        None
    } else {
        let e = word_run_end(u, p);
        if e == p {
            None
        } else if !lit_at(u, e, status_segment()) {
            None
        } else {
            let q = e + 8;
            let f = digit_run_end(u, q);
            if f == q {
                None
            } else {
                Some(digits_val(u, q, f))
            }
        }
    }
}

/// The decimal value of a digit run never shrinks as the run grows.
proof fn lemma_digits_val_monotone(u: Seq<u8>, i: int, j: int, k: int)
    requires
        i <= j <= k,
        forall|t: int| i <= t < k ==> is_digit(#[trigger] u[t]),
    ensures
        0 <= digits_val(u, i, j) <= digits_val(u, i, k),
    decreases k - i,
{
    if j < k {
        lemma_digits_val_monotone(u, i, j, k - 1);
        assert(digits_val(u, i, k - 1) * 10 >= digits_val(u, i, k - 1)) by {
            assert(digits_val(u, i, k - 1) >= 0);
        }
    } else if j == k {
        if i < j {
            lemma_digits_val_monotone(u, i, i, j - 1);
        }
    }
}

/// Whether the literal occurs in `u` at position `i`.
fn lit_at_exec(u: &Vec<u8>, i: usize, lit: &Vec<u8>) -> (r: bool)
    ensures
        r == lit_at(u@, i as int, lit@),
{
    if i > u.len() || lit.len() > u.len() - i {
        return false;
    }
    let ulen = u.len();
    let mut j: usize = 0;
    while j < lit.len()
        invariant
            j <= lit@.len(),
            i + lit@.len() <= u@.len(),
            u@.len() == ulen,
            forall|t: int| 0 <= t < j ==> u@[i + t] == lit@[t],
        decreases lit.len() - j,
    {
        if u[i + j] != lit[j] {
            proof {
                assert(u@.subrange(i as int, i + lit@.len())[j as int] != lit@[j as int]);
            }
            return false;
        }
        j = j + 1;
    }
    proof {
        assert(u@.subrange(i as int, i + lit@.len()) =~= lit@);
    }
    true
}

/// Whether the byte may appear in the user-name segment.
fn is_word_byte_exec(b: u8) -> (r: bool)
    ensures
        r == is_word_byte(b),
{
    (65 <= b && b <= 90) || (97 <= b && b <= 122) || (48 <= b && b <= 57) || b == 95
}

/// End of the run of word bytes starting at `i`.
fn word_run_end_exec(u: &Vec<u8>, i: usize) -> (r: usize)
    requires
        i <= u@.len(),
    ensures
        r as int == word_run_end(u@, i as int),
        i <= r <= u@.len(),
{
    let mut j: usize = i;
    loop
        invariant
            i <= j <= u@.len(),
            word_run_end(u@, i as int) == word_run_end(u@, j as int),
        decreases u@.len() - j,
    {
        if j >= u.len() {
            return j;
        }
        if !is_word_byte_exec(u[j]) {
            return j;
        }
        j = j + 1;
    }
}

/// End of the run of ASCII digits starting at `i`.
fn digit_run_end_exec(u: &Vec<u8>, i: usize) -> (r: usize)
    requires
        i <= u@.len(),
    ensures
        r as int == digit_run_end(u@, i as int),
        i <= r <= u@.len(),
{
    let mut j: usize = i;
    loop
        invariant
            i <= j <= u@.len(),
            digit_run_end(u@, i as int) == digit_run_end(u@, j as int),
        decreases u@.len() - j,
    {
        if j >= u.len() {
            return j;
        }
        let b = u[j];
        if b < 48 || b > 57 {
            return j;
        }
        j = j + 1;
    }
}

/// Extract the feed ID from a status URL. Returns the ID exactly when the URL
/// matches the status grammar and its digit run's value fits a signed 64-bit
/// number; a value too large for the column is treated as no match.
pub fn extract_feed_id(url: &Vec<u8>) -> (r: Option<i64>)
    ensures
        r matches Some(t) ==> feed_id_of(url@) == Some(t as int),
        r is None ==> (feed_id_of(url@) is None || (feed_id_of(url@) matches Some(v) && v
            > i64::MAX)),
{
    let https: Vec<u8> = vec![104u8, 116u8, 116u8, 112u8, 115u8, 58u8, 47u8, 47u8];
    let http: Vec<u8> = vec![104u8, 116u8, 116u8, 112u8, 58u8, 47u8, 47u8];
    let mobile: Vec<u8> = vec![109u8, 111u8, 98u8, 105u8, 108u8, 101u8, 46u8];
    let host: Vec<u8> = vec![116u8, 119u8, 105u8, 116u8, 116u8, 101u8, 114u8, 46u8, 99u8, 111u8, 109u8, 47u8];
    let status: Vec<u8> = vec![47u8, 115u8, 116u8, 97u8, 116u8, 117u8, 115u8, 47u8];
    proof {
        assert(https@ =~= https_prefix());
        assert(http@ =~= http_prefix());
        assert(mobile@ =~= mobile_prefix());
        assert(host@ =~= twitter_host());
        assert(status@ =~= status_segment());
    }
    let ulen = url.len();
    let s: usize = if lit_at_exec(url, 0, &https) {
        8
    } else if lit_at_exec(url, 0, &http) {
        7
    } else {
        return None;
    };
    let h: usize = if lit_at_exec(url, s, &mobile) {
        s + 7
    } else {
        s
    };
    if !lit_at_exec(url, h, &host) {
        return None;
    }
    let p = h + 12;
    let e = word_run_end_exec(url, p);
    if e == p {
        return None;
    }
    if !lit_at_exec(url, e, &status) {
        return None;
    }
    let q = e + 8;
    let f = digit_run_end_exec(url, q);
    if f == q {
        return None;
    }
    proof {
        lemma_digit_run_all_digits(url@, q as int, f as int);
        assert(feed_id_of(url@) == Some(digits_val(url@, q as int, f as int)));
    }
    // Decimal value of the digit run, with exact overflow detection.
    let mut val: i64 = 0;
    let mut j: usize = q;
    while j < f
        invariant
            q <= j <= f,
            f <= url@.len(),
            url@.len() == ulen,
            feed_id_of(url@) == Some(digits_val(url@, q as int, f as int)),
            forall|t: int| q <= t < f ==> is_digit(#[trigger] url@[t]),
            0 <= val,
            val as int == digits_val(url@, q as int, j as int),
        decreases f - j,
    {
        let d = (url[j] - 48) as i64;
        if val > (i64::MAX - d) / 10 {
            proof {
                assert(val * 10 + d > i64::MAX) by {
                    let lim = (i64::MAX - d) as int / 10;
                    assert(val >= lim + 1);
                    assert((lim + 1) * 10 == lim * 10 + 10);
                    assert(val * 10 >= lim * 10 + 10) by (nonlinear_arith)
                        requires
                            val >= lim + 1,
                    ;
                    assert(lim * 10 > i64::MAX - d - 10);
                }
                lemma_digits_val_monotone(url@, q as int, j + 1, f as int);
            }
            return None;
        }
        val = val * 10 + d;
        j = j + 1;
    }
    Some(val)
}

/// Every byte of a digit run is a digit.
proof fn lemma_digit_run_all_digits(u: Seq<u8>, i: int, f: int)
    requires
        0 <= i <= u.len(),
        digit_run_end(u, i) == f,
    ensures
        i <= f <= u.len(),
        forall|t: int| i <= t < f ==> is_digit(#[trigger] u[t]),
    decreases u.len() - i,
{
    if i < u.len() && is_digit(u[i]) {
        lemma_digit_run_all_digits(u, i + 1, f);
    }
}

} // verus!
