//! The text of a decimal or special floating-point number, as nom 7's
//! `float` parser accepts it.

use vstd::prelude::*;
use crate::error::Severity;
use crate::text::{run_end, lemma_run_end, ByteClass};

verus! {

/// Position after an optional `+` or `-` at `p`.
pub open spec fn sign_end(s: Seq<u8>, p: int) -> int {
    if 0 <= p < s.len() && (s[p] == 43 || s[p] == 45) {
        p + 1
    } else {
        p
    }
}

/// End of `digits ['.' [digits]]` or of `'.' digits` at `p`.
pub open spec fn mantissa_end(s: Seq<u8>, p: int) -> Option<int> {
    let d = run_end(s, p, ByteClass::Digit);
    if d > p {
        if d < s.len() && s[d] == 46 {
            Some(run_end(s, d + 1, ByteClass::Digit))
        } else {
            Some(d)
        }
    } else if 0 <= p < s.len() && s[p] == 46 && run_end(s, p + 1, ByteClass::Digit) > p + 1 {
        Some(run_end(s, p + 1, ByteClass::Digit))
    } else {
        None
    }
}

/// End of `[sign] mantissa [('e'|'E') [sign] digits]` at `i`; an exponent
/// marker without digits after it is a `Failure`, a missing mantissa an `Error`.
pub open spec fn decimal_end(s: Seq<u8>, i: int) -> Result<int, Severity> {
    match mantissa_end(s, sign_end(s, i)) {
        None => Err(Severity::Error),
        Some(m) => if 0 <= m < s.len() && (s[m] == 101 || s[m] == 69) {
            let q = sign_end(s, m + 1);
            let x = run_end(s, q, ByteClass::Digit);
            if x > q {
                Ok(x)
            } else {
                Err(Severity::Failure)
            }
        } else {
            Ok(m)
        },
    }
}

/// ASCII upper-case letters folded to lower case.
pub open spec fn lower(b: u8) -> u8 {
    if 65 <= b <= 90 {
        (b + 32) as u8
    } else {
        b
    }
}

/// `w` (lower-case) stands at `i`, ignoring ASCII case.
pub open spec fn word_no_case_at(s: Seq<u8>, i: int, w: Seq<u8>) -> bool {
    &&& 0 <= i
    &&& i + w.len() <= s.len()
    &&& forall|k: int| 0 <= k < w.len() ==> lower(#[trigger] s[i + k]) == w[k]
}

pub open spec fn word_nan() -> Seq<u8> {
    seq![110u8, 97, 110]
}

pub open spec fn word_inf() -> Seq<u8> {
    seq![105u8, 110, 102]
}

pub open spec fn word_infinity() -> Seq<u8> {
    seq![105u8, 110, 102, 105, 110, 105, 116, 121]
}

/// End of the number text at `i`: a decimal number, or else one of the words
/// `nan`, `inf`, `infinity` in any case, tried in that order.
pub open spec fn float_end(s: Seq<u8>, i: int) -> Result<int, Severity> {
    match decimal_end(s, i) {
        Ok(j) => Ok(j),
        Err(Severity::Failure) => Err(Severity::Failure),
        Err(Severity::Error) => if word_no_case_at(s, i, word_nan()) {
            Ok(i + 3)
        } else if word_no_case_at(s, i, word_inf()) {
            Ok(i + 3)
        } else if word_no_case_at(s, i, word_infinity()) {
            Ok(i + 8)
        } else {
            Err(Severity::Error)
        },
    }
}

/// What the parser leaves of the input: its remaining length.
pub open spec fn remaining_after(s: Seq<u8>, r: Result<int, Severity>) -> Result<usize, Severity> {
    match r {
        Ok(j) => Ok((s.len() - j) as usize),
        Err(e) => Err(e),
    }
}

/// Calls nom's `recognize_float_or_exceptions`, the recognizer behind
/// `nom::number::complete::float`, on `input[start..]`. The contract claims
/// that on success it leaves exactly the input after the number text that
/// `float_end` describes, and that it fails with a nom `Failure` or `Error`
/// exactly as `float_end` says; it returns the remaining length.
#[verifier::external_body]
fn nom_recognize_float(input: &[u8], start: usize) -> (r: Result<usize, Severity>)
    requires
        start <= input@.len(),
    ensures
        r == remaining_after(input@, float_end(input@, start as int)),
{
    match nom::number::complete::recognize_float_or_exceptions::<&[u8], nom::error::Error<&[u8]>>(&input[start..]) {
        Ok((rest, _)) => Ok(rest.len()),
        Err(nom::Err::Failure(_)) => Err(Severity::Failure),
        Err(_) => Err(Severity::Error),
    }
}

pub proof fn lemma_float_end(s: Seq<u8>, i: int)
    requires
        0 <= i <= s.len(),
    ensures
        float_end(s, i) matches Ok(j) ==> {
            &&& i < j <= s.len()
            &&& forall|k: int| i <= k < j ==> #[trigger] s[k] < 128
        },
{
    let p = sign_end(s, i);
    lemma_run_end(s, p, ByteClass::Digit);
    let d = run_end(s, p, ByteClass::Digit);
    if d < s.len() {
        lemma_run_end(s, d + 1, ByteClass::Digit);
    }
    if p < s.len() {
        lemma_run_end(s, p + 1, ByteClass::Digit);
    }
    if let Some(m) = mantissa_end(s, p) {
        if 0 <= m < s.len() {
            let q = sign_end(s, m + 1);
            lemma_run_end(s, q, ByteClass::Digit);
        }
    }
    if decimal_end(s, i) is Err {
        if word_no_case_at(s, i, word_nan()) {
            assert forall|k: int| i <= k < i + 3 implies #[trigger] s[k] < 128 by {
                assert(lower(s[i + (k - i)]) == word_nan()[k - i]);
            }
        } else if word_no_case_at(s, i, word_inf()) {
            assert forall|k: int| i <= k < i + 3 implies #[trigger] s[k] < 128 by {
                assert(lower(s[i + (k - i)]) == word_inf()[k - i]);
            }
        } else if word_no_case_at(s, i, word_infinity()) {
            assert forall|k: int| i <= k < i + 8 implies #[trigger] s[k] < 128 by {
                assert(lower(s[i + (k - i)]) == word_infinity()[k - i]);
            }
        }
    }
}

/// A number text holds no space or tab.
pub proof fn lemma_float_end_no_blank(s: Seq<u8>, i: int)
    requires
        0 <= i <= s.len(),
    ensures
        float_end(s, i) matches Ok(j) ==> forall|k: int| i <= k < j ==> #[trigger] s[k] != 32 && s[k] != 9,
{
    let p = sign_end(s, i);
    lemma_run_end(s, p, ByteClass::Digit);
    let d = run_end(s, p, ByteClass::Digit);
    if d < s.len() {
        lemma_run_end(s, d + 1, ByteClass::Digit);
    }
    if p < s.len() {
        lemma_run_end(s, p + 1, ByteClass::Digit);
    }
    if let Some(m) = mantissa_end(s, p) {
        if 0 <= m < s.len() {
            let q = sign_end(s, m + 1);
            lemma_run_end(s, q, ByteClass::Digit);
        }
    }
    if decimal_end(s, i) is Err {
        if word_no_case_at(s, i, word_nan()) {
            assert forall|k: int| i <= k < i + 3 implies #[trigger] s[k] != 32 && s[k] != 9 by {
                assert(lower(s[i + (k - i)]) == word_nan()[k - i]);
            }
        } else if word_no_case_at(s, i, word_inf()) {
            assert forall|k: int| i <= k < i + 3 implies #[trigger] s[k] != 32 && s[k] != 9 by {
                assert(lower(s[i + (k - i)]) == word_inf()[k - i]);
            }
        } else if word_no_case_at(s, i, word_infinity()) {
            assert forall|k: int| i <= k < i + 8 implies #[trigger] s[k] != 32 && s[k] != 9 by {
                assert(lower(s[i + (k - i)]) == word_infinity()[k - i]);
            }
        }
    }
}

/// Reads the number text that starts at `i`, as nom's `float` does, and
/// returns where it ends.
pub fn float_token_end(s: &[u8], i: usize) -> (r: Result<usize, Severity>)
    requires
        i <= s@.len(),
    ensures
        match r {
            Ok(j) => float_end(s@, i as int) == Ok::<int, Severity>(j as int),
            Err(e) => float_end(s@, i as int) == Err::<int, Severity>(e),
        },
{
    proof {
        lemma_float_end(s@, i as int);
    }
    match nom_recognize_float(s, i) {
        Ok(rest) => Ok(s.len() - rest),
        Err(e) => Err(e),
    }
}

} // verus!
