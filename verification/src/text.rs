//! Byte classes and the runs of bytes that the SMD grammar is built from.

use vstd::prelude::*;
use crate::error::{error_at, make_error, Severity, SmdError, SmdErrorKind};
use crate::number::{float_end, float_token_end, lemma_float_end};

verus! {

/// A decimal digit `0`-`9`.
pub open spec fn is_digit(b: u8) -> bool {
    48 <= b <= 57
}

/// A blank inside a line: space or tab.
pub open spec fn is_space(b: u8) -> bool {
    b == 32 || b == 9
}

/// Any white space the grammar skips between lines: space, tab, CR, LF.
pub open spec fn is_multispace(b: u8) -> bool {
    b == 32 || b == 9 || b == 13 || b == 10
}

/// An ASCII letter or digit.
pub open spec fn is_alnum(b: u8) -> bool {
    is_digit(b) || (65 <= b <= 90) || (97 <= b <= 122)
}

/// The classes of bytes that a run may be made of.
#[derive(Clone, Copy, Debug, PartialEq, Eq, Structural)]
pub enum ByteClass {
    Digit,
    Space,
    MultiSpace,
    AlphaNum,
}

pub open spec fn in_class(c: ByteClass, b: u8) -> bool {
    match c {
        ByteClass::Digit => is_digit(b),
        ByteClass::Space => is_space(b),
        ByteClass::MultiSpace => is_multispace(b),
        ByteClass::AlphaNum => is_alnum(b),
    }
}

/// The end of the longest run of bytes of class `c` that starts at `i`.
pub open spec fn run_end(s: Seq<u8>, i: int, c: ByteClass) -> int
    decreases s.len() - i,
{
    if 0 <= i < s.len() && in_class(c, s[i]) {
        run_end(s, i + 1, c)
    } else {
        i
    }
}

pub proof fn lemma_run_end(s: Seq<u8>, i: int, c: ByteClass)
    requires
        0 <= i <= s.len(),
    ensures
        i <= run_end(s, i, c) <= s.len(),
        forall|k: int| i <= k < run_end(s, i, c) ==> in_class(c, #[trigger] s[k]),
        run_end(s, i, c) < s.len() ==> !in_class(c, s[run_end(s, i, c)]),
    decreases s.len() - i,
{
    if i < s.len() && in_class(c, s[i]) {
        lemma_run_end(s, i + 1, c);
    }
}

pub fn byte_in_class(c: ByteClass, b: u8) -> (r: bool)
    ensures
        r == in_class(c, b),
{
    match c {
        ByteClass::Digit => 48 <= b && b <= 57,
        ByteClass::Space => b == 32 || b == 9,
        ByteClass::MultiSpace => b == 32 || b == 9 || b == 13 || b == 10,
        ByteClass::AlphaNum => (48 <= b && b <= 57) || (65 <= b && b <= 90) || (97 <= b && b <= 122),
    }
}

/// Finds the end of the run of class `c` that starts at `i`.
pub fn skip_run(s: &[u8], i: usize, c: ByteClass) -> (r: usize)
    requires
        i <= s@.len(),
    ensures
        r == run_end(s@, i as int, c),
{
    let mut j = i;
    while j < s.len() && byte_in_class(c, s[j])
        invariant
            i <= j <= s@.len(),
            run_end(s@, j as int, c) == run_end(s@, i as int, c),
        decreases s@.len() - j,
    {
        j = j + 1;
    }
    j
}

/// `w` stands at byte `i` of `s`.
pub open spec fn has_text_at(s: Seq<u8>, i: int, w: Seq<u8>) -> bool {
    &&& 0 <= i
    &&& i + w.len() <= s.len()
    &&& s.subrange(i, i + w.len()) == w
}

/// The first place at or after `i` where `w` stands, if any.
pub open spec fn find_text(s: Seq<u8>, i: int, w: Seq<u8>) -> Option<int>
    decreases s.len() - i,
{
    if i < 0 || i >= s.len() || i + w.len() > s.len() {
        if 0 <= i && i + w.len() <= s.len() && w.len() == 0 {
            Some(i)
        } else {
            None
        }
    } else if has_text_at(s, i, w) {
        Some(i)
    } else {
        find_text(s, i + 1, w)
    }
}

/// The keywords of the SMD format.
#[derive(Clone, Copy, Debug, PartialEq, Eq, Structural)]
pub enum Keyword {
    Version,
    Nodes,
    Skeleton,
    Triangles,
    End,
    VertexAnimation,
}

pub open spec fn keyword_text(k: Keyword) -> Seq<u8> {
    match k {
        Keyword::Version => seq![118u8, 101, 114, 115, 105, 111, 110],
        Keyword::Nodes => seq![110u8, 111, 100, 101, 115],
        Keyword::Skeleton => seq![115u8, 107, 101, 108, 101, 116, 111, 110],
        Keyword::Triangles => seq![116u8, 114, 105, 97, 110, 103, 108, 101, 115],
        Keyword::End => seq![101u8, 110, 100],
        Keyword::VertexAnimation => seq![
            118u8, 101, 114, 116, 101, 120, 97, 110, 105, 109, 97, 116, 105, 111, 110,
        ],
    }
}

pub fn keyword_bytes(k: Keyword) -> (r: Vec<u8>)
    ensures
        r@ == keyword_text(k),
{
    let r = match k {
        Keyword::Version => vec![118u8, 101, 114, 115, 105, 111, 110],
        Keyword::Nodes => vec![110u8, 111, 100, 101, 115],
        Keyword::Skeleton => vec![115u8, 107, 101, 108, 101, 116, 111, 110],
        Keyword::Triangles => vec![116u8, 114, 105, 97, 110, 103, 108, 101, 115],
        Keyword::End => vec![101u8, 110, 100],
        Keyword::VertexAnimation => vec![
            118u8, 101, 114, 116, 101, 120, 97, 110, 105, 109, 97, 116, 105, 111, 110,
        ],
    };
    assert(r@ =~= keyword_text(k));
    r
}

/// The pieces a line of the SMD format is made of.
#[derive(Clone, Copy, Debug, PartialEq, Eq, Structural)]
pub enum Token {
    /// A keyword, exactly.
    Word(Keyword),
    /// `\n` or `\r\n`.
    LineEnding,
    /// One or more decimal digits.
    Digits,
    /// One or more spaces or tabs.
    Spaces,
    /// One or more ASCII letters or digits.
    AlphaNum,
    /// Zero or more spaces, tabs, CRs or LFs.
    Blanks,
    /// Everything up to (not including) the next `end`.
    UntilEnd,
    /// The text of a number.
    Float,
}

/// A run of at least one byte of class `c`, or an error of kind `kind`.
pub open spec fn run1_end(s: Seq<u8>, i: int, c: ByteClass, kind: SmdErrorKind) -> Result<int, SmdError> {
    if run_end(s, i, c) > i {
        Ok(run_end(s, i, c))
    } else {
        Err(error_at(i, kind))
    }
}

/// Where token `t` read at byte `i` ends, or why it cannot be read there.
pub open spec fn token_end(s: Seq<u8>, i: int, t: Token) -> Result<int, SmdError> {
    match t {
        Token::Word(k) => if has_text_at(s, i, keyword_text(k)) {
            Ok(i + keyword_text(k).len())
        } else {
            Err(error_at(i, SmdErrorKind::Tag))
        },
        Token::LineEnding => if 0 <= i < s.len() && s[i] == 10 {
            Ok(i + 1)
        } else if 0 <= i && i + 1 < s.len() && s[i] == 13 && s[i + 1] == 10 {
            Ok(i + 2)
        } else {
            Err(error_at(i, SmdErrorKind::CrLf))
        },
        Token::Digits => run1_end(s, i, ByteClass::Digit, SmdErrorKind::Digit),
        Token::Spaces => run1_end(s, i, ByteClass::Space, SmdErrorKind::Space),
        Token::AlphaNum => run1_end(s, i, ByteClass::AlphaNum, SmdErrorKind::AlphaNumeric),
        Token::Blanks => Ok(run_end(s, i, ByteClass::MultiSpace)),
        Token::UntilEnd => match find_text(s, i, keyword_text(Keyword::End)) {
            Some(k) => Ok(k),
            None => Err(error_at(i, SmdErrorKind::TakeUntil)),
        },
        Token::Float => match float_end(s, i) {
            Ok(j) => Ok(j),
            Err(sev) => Err(SmdError { offset: i as usize, kind: SmdErrorKind::Float, severity: sev }),
        },
    }
}

/// A position where a character of the input starts: the ends of the input,
/// a position right after an ASCII byte, or a position holding an ASCII byte.
pub open spec fn on_char_start(s: Seq<u8>, p: int) -> bool {
    ||| p == 0
    ||| p == s.len()
    ||| (0 < p <= s.len() && s[p - 1] < 128)
    ||| (0 <= p < s.len() && s[p] < 128)
}

pub proof fn lemma_find_text(s: Seq<u8>, i: int, w: Seq<u8>)
    requires
        0 <= i <= s.len(),
    ensures
        find_text(s, i, w) matches Some(k) ==> i <= k && has_text_at(s, k, w),
    decreases s.len() - i,
{
    if !(i < 0 || i >= s.len() || i + w.len() > s.len()) && !has_text_at(s, i, w) {
        lemma_find_text(s, i + 1, w);
    }
    if i == s.len() && w.len() == 0 {
        assert(s.subrange(i, i) =~= w);
    }
}

/// Every token read from a character start ends at a character start after
/// its start, and an unreadable token is reported where it starts. Tokens
/// other than `UntilEnd` consist of ASCII bytes only.
pub proof fn lemma_token_end(s: Seq<u8>, i: int, t: Token)
    requires
        0 <= i <= s.len() <= usize::MAX,
    ensures
        token_end(s, i, t) matches Ok(j) ==> {
            &&& i <= j <= s.len()
            &&& (on_char_start(s, i) ==> on_char_start(s, j))
            &&& (t != Token::UntilEnd ==> forall|k: int| i <= k < j ==> #[trigger] s[k] < 128)
            &&& (t != Token::UntilEnd && t != Token::Blanks ==> i < j)
            &&& (t == Token::Digits ==> forall|k: int| i <= k < j ==> is_digit(#[trigger] s[k]))
        },
        token_end(s, i, t) matches Err(e) ==> e.offset == i && e.kind != SmdErrorKind::Fail
            && e.kind != SmdErrorKind::ManyTill,
{
    match t {
        Token::Word(k) => {
            if has_text_at(s, i, keyword_text(k)) {
                let w = keyword_text(k);
                assert forall|m: int| i <= m < i + w.len() implies #[trigger] s[m] < 128 by {
                    assert(s.subrange(i, i + w.len())[m - i] == w[m - i]);
                }
            }
        },
        Token::Digits => lemma_run_end(s, i, ByteClass::Digit),
        Token::Spaces => lemma_run_end(s, i, ByteClass::Space),
        Token::AlphaNum => lemma_run_end(s, i, ByteClass::AlphaNum),
        Token::Blanks => lemma_run_end(s, i, ByteClass::MultiSpace),
        Token::UntilEnd => {
            lemma_find_text(s, i, keyword_text(Keyword::End));
            if let Some(k) = find_text(s, i, keyword_text(Keyword::End)) {
                assert(s.subrange(k, k + 3)[0] == 101u8);
            }
        },
        Token::Float => lemma_float_end(s, i),
        Token::LineEnding => {},
    }
}

/// Reads one token at byte `i`.
pub fn read_token(s: &[u8], i: usize, t: Token) -> (r: Result<usize, SmdError>)
    requires
        i <= s@.len(),
    ensures
        match r {
            Ok(j) => token_end(s@, i as int, t) == Ok::<int, SmdError>(j as int),
            Err(e) => token_end(s@, i as int, t) == Err::<int, SmdError>(e),
        },
{
    let n = s.len();
    proof {
        lemma_token_end(s@, i as int, t);
    }
    match t {
        Token::Word(k) => {
            let w = keyword_bytes(k);
            if text_at(s, i, &w) {
                Ok(i + w.len())
            } else {
                Err(make_error(i, SmdErrorKind::Tag))
            }
        },
        Token::LineEnding => {
            if i < s.len() && s[i] == 10 {
                Ok(i + 1)
            } else if i < s.len() && s.len() - i > 1 && s[i] == 13 && s[i + 1] == 10 {
                Ok(i + 2)
            } else {
                Err(make_error(i, SmdErrorKind::CrLf))
            }
        },
        Token::Digits => read_run1(s, i, ByteClass::Digit, SmdErrorKind::Digit),
        Token::Spaces => read_run1(s, i, ByteClass::Space, SmdErrorKind::Space),
        Token::AlphaNum => read_run1(s, i, ByteClass::AlphaNum, SmdErrorKind::AlphaNumeric),
        Token::Blanks => Ok(skip_run(s, i, ByteClass::MultiSpace)),
        Token::UntilEnd => {
            let w = keyword_bytes(Keyword::End);
            match find_bytes(s, i, &w) {
                Some(k) => Ok(k),
                None => Err(make_error(i, SmdErrorKind::TakeUntil)),
            }
        },
        Token::Float => match float_token_end(s, i) {
            Ok(j) => Ok(j),
            Err(sev) => Err(SmdError { offset: i, kind: SmdErrorKind::Float, severity: sev }),
        },
    }
}

fn read_run1(s: &[u8], i: usize, c: ByteClass, kind: SmdErrorKind) -> (r: Result<usize, SmdError>)
    requires
        i <= s@.len(),
    ensures
        match r {
            Ok(j) => run1_end(s@, i as int, c, kind) == Ok::<int, SmdError>(j as int),
            Err(e) => run1_end(s@, i as int, c, kind) == Err::<int, SmdError>(e),
        },
{
    let j = skip_run(s, i, c);
    if j > i {
        Ok(j)
    } else {
        Err(make_error(i, kind))
    }
}

/// Whether `w` stands at byte `i` of `s`.
pub fn text_at(s: &[u8], i: usize, w: &Vec<u8>) -> (r: bool)
    requires
        i <= s@.len(),
    ensures
        r == has_text_at(s@, i as int, w@),
{
    if w.len() > s.len() - i {
        return false;
    }
    let mut k: usize = 0;
    while k < w.len()
        invariant
            i + w@.len() <= s@.len(),
            s@.len() == s.len(),
            k <= w@.len(),
            forall|m: int| 0 <= m < k ==> s@[i + m] == w@[m],
        decreases w@.len() - k,
    {
        if s[i + k] != w[k] {
            assert(s@.subrange(i as int, i + w@.len())[k as int] != w@[k as int]);
            return false;
        }
        k = k + 1;
    }
    assert(s@.subrange(i as int, i + w@.len()) =~= w@);
    true
}

/// The first place at or after `i` where `w` stands, if any.
pub fn find_bytes(s: &[u8], i: usize, w: &Vec<u8>) -> (r: Option<usize>)
    requires
        i <= s@.len(),
    ensures
        match r {
            Some(k) => find_text(s@, i as int, w@) == Some(k as int),
            None => find_text(s@, i as int, w@) is None,
        },
{
    let mut k = i;
    while k < s.len() && w.len() <= s.len() - k
        invariant
            i <= k <= s@.len(),
            find_text(s@, k as int, w@) == find_text(s@, i as int, w@),
        decreases s@.len() - k,
    {
        if text_at(s, k, w) {
            return Some(k);
        }
        k = k + 1;
    }
    if w.len() == 0 && k <= s.len() {
        Some(k)
    } else {
        None
    }
}

/// Reads `toks` one after another from byte `i`: the end of each token, or
/// the error of the first one that cannot be read.
pub open spec fn scan(s: Seq<u8>, i: int, toks: Seq<Token>) -> Result<Seq<usize>, SmdError>
    decreases toks.len(),
{
    if toks.len() == 0 {
        Ok(seq![])
    } else {
        match token_end(s, i, toks[0]) {
            Err(e) => Err(e),
            Ok(j) => match scan(s, j, toks.drop_first()) {
                Err(e) => Err(e),
                Ok(rest) => Ok(seq![j as usize] + rest),
            },
        }
    }
}

/// Where token `k` of a scan that started at `i` and ended its tokens at
/// `ends` begins.
pub open spec fn token_start(i: int, ends: Seq<usize>, k: int) -> int {
    if k == 0 {
        i
    } else {
        ends[k - 1] as int
    }
}

pub proof fn lemma_scan(s: Seq<u8>, i: int, toks: Seq<Token>)
    requires
        0 <= i <= s.len() <= usize::MAX,
    ensures
        scan(s, i, toks) matches Ok(ends) ==> {
            &&& ends.len() == toks.len()
            &&& forall|k: int| 0 <= k < toks.len() ==> {
                &&& token_start(i, ends, k) <= #[trigger] ends[k] <= s.len()
                &&& i <= ends[k] <= ends[toks.len() - 1]
                &&& (on_char_start(s, i) ==> on_char_start(s, ends[k] as int))
            }
        },
        scan(s, i, toks) matches Err(e) ==> {
            &&& i <= e.offset <= s.len()
            &&& (on_char_start(s, i) ==> on_char_start(s, e.offset as int))
            &&& e.kind != SmdErrorKind::Fail
            &&& e.kind != SmdErrorKind::ManyTill
        },
    decreases toks.len(),
{
    if toks.len() > 0 {
        lemma_token_end(s, i, toks[0]);
        if let Ok(j) = token_end(s, i, toks[0]) {
            let tail = toks.drop_first();
            lemma_scan(s, j, tail);
            if let Ok(rest) = scan(s, j, tail) {
                let ends = seq![j as usize] + rest;
                assert forall|k: int| 0 <= k < toks.len() implies {
                    &&& token_start(i, ends, k) <= #[trigger] ends[k] <= s.len()
                    &&& i <= ends[k] <= ends[toks.len() - 1]
                    &&& (on_char_start(s, i) ==> on_char_start(s, ends[k] as int))
                } by {
                    if k > 0 {
                        assert(ends[k] == rest[k - 1]);
                        assert(token_start(i, ends, k) == token_start(j, rest, k - 1));
                    }
                    if toks.len() > 1 {
                        assert(ends[toks.len() - 1] == rest[tail.len() - 1]);
                        assert(j <= rest[0]);
                    }
                }
            }
        }
    }
}

/// What one token of a successful scan covers.
pub proof fn lemma_scan_at(s: Seq<u8>, i: int, toks: Seq<Token>, k: int)
    requires
        0 <= i <= s.len() <= usize::MAX,
        scan(s, i, toks) is Ok,
        0 <= k < toks.len(),
    ensures
        ({
            let ends = scan(s, i, toks)->Ok_0;
            let a = token_start(i, ends, k);
            &&& token_end(s, a, toks[k]) == Ok::<int, SmdError>(ends[k] as int)
            &&& a <= ends[k] <= s.len()
            &&& (toks[k] != Token::UntilEnd ==> forall|m: int| a <= m < ends[k] ==> #[trigger] s[m] < 128)
            &&& (toks[k] != Token::UntilEnd && toks[k] != Token::Blanks ==> a < ends[k])
            &&& (toks[k] == Token::Digits ==> forall|m: int| a <= m < ends[k] ==> is_digit(#[trigger] s[m]))
        }),
    decreases k,
{
    lemma_token_end(s, i, toks[0]);
    let j = token_end(s, i, toks[0])->Ok_0;
    let tail = toks.drop_first();
    let ends = scan(s, i, toks)->Ok_0;
    let rest = scan(s, j, tail)->Ok_0;
    assert(ends == seq![j as usize] + rest);
    if k > 0 {
        lemma_scan(s, j, tail);
        lemma_scan_at(s, j, tail, k - 1);
        assert(ends[k] == rest[k - 1]);
        assert(token_start(i, ends, k) == token_start(j, rest, k - 1));
        assert(toks[k] == tail[k - 1]);
    }
}

/// Reads `toks` one after another from byte `i`.
pub fn read_tokens(s: &[u8], i: usize, toks: &Vec<Token>) -> (r: Result<Vec<usize>, SmdError>)
    requires
        i <= s@.len(),
    ensures
        match r {
            Ok(ends) => scan(s@, i as int, toks@) == Ok::<Seq<usize>, SmdError>(ends@),
            Err(e) => scan(s@, i as int, toks@) == Err::<Seq<usize>, SmdError>(e),
        },
{
    let n = s.len();
    let mut ends: Vec<usize> = Vec::new();
    let mut pos = i;
    let mut k: usize = 0;
    proof {
        assert(toks@.skip(0) =~= toks@);
        if let Ok(rest) = scan(s@, i as int, toks@) {
            assert(ends@ + rest =~= rest);
        }
    }
    while k < toks.len()
        invariant
            n == s@.len(),
            pos <= n,
            k <= toks@.len(),
            scan(s@, i as int, toks@) == match scan(s@, pos as int, toks@.skip(k as int)) {
                Ok(rest) => Ok::<Seq<usize>, SmdError>(ends@ + rest),
                Err(e) => Err::<Seq<usize>, SmdError>(e),
            },
        decreases toks@.len() - k,
    {
        proof {
            lemma_token_end(s@, pos as int, toks@[k as int]);
            assert(toks@.skip(k as int).drop_first() =~= toks@.skip(k + 1));
        }
        match read_token(s, pos, toks[k]) {
            Ok(j) => {
                proof {
                    let tail = toks@.skip(k + 1);
                    match scan(s@, j as int, tail) {
                        Ok(rest) => {
                            assert(ends@.push(j) + rest =~= ends@ + (seq![j] + rest));
                        },
                        Err(_) => {},
                    }
                }
                ends.push(j);
                pos = j;
            },
            Err(e) => {
                return Err(e);
            },
        }
        k = k + 1;
    }
    proof {
        assert(toks@.skip(k as int) =~= Seq::<Token>::empty());
        assert(ends@ + Seq::<usize>::empty() =~= ends@);
    }
    Ok(ends)
}

} // verus!
