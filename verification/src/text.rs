//! Text primitives for attribute-file contents: control-character
//! stripping and strict decimal parsing.

use vstd::prelude::*;
use vstd::string::StrSliceExecFns;
use vstd::string::StringExecFns;

use crate::errors::CoreError;

verus! {

/// A control character: the ASCII control range (below space, plus DEL)
/// and the C1 control range.
pub open spec fn is_control_char(c: char) -> bool {
    (c as u32) < 32 || (127 <= (c as u32) && (c as u32) < 160)
}

/// The characters of `s` that are not control characters, in order.
pub open spec fn strip_controls(s: Seq<char>) -> Seq<char>
    decreases s.len(),
{
    if s.len() == 0 {
        Seq::<char>::empty()
    } else if is_control_char(s.last()) {
        strip_controls(s.drop_last())
    } else {
        strip_controls(s.drop_last()).push(s.last())
    }
}

/// Executable test for [`is_control_char`].
#[verifier::when_used_as_spec(is_control_char)]
pub fn check_control_char(c: char) -> (r: bool)
    ensures
        r == is_control_char(c),
{
    let u = c as u32;
    u < 32 || (127 <= u && u < 160)
}

/// Copy of `s` with every control character removed.
pub fn strip_control_chars(s: &str) -> (r: String)
    ensures
        r@ == strip_controls(s@),
{
    let n = s.unicode_len();
    let mut out = String::new();
    let mut i: usize = 0;
    while i < n
        invariant
            i <= n,
            n == s@.len(),
            out@ == strip_controls(s@.subrange(0, i as int)),
        decreases n - i,
    {
        let c = s.get_char(i);
        if !check_control_char(c) {
            let piece = s.substring_char(i, i + 1);
            out.append(piece);
            proof {
                assert(piece@ =~= seq![s@[i as int]]);
            }
        }
        proof {
            let pre = s@.subrange(0, i as int);
            let ext = s@.subrange(0, i + 1);
            assert(ext.drop_last() =~= pre);
            assert(ext.last() == s@[i as int]);
            if !is_control_char(s@[i as int]) {
                assert(out@ =~= strip_controls(pre).push(s@[i as int]));
            }
        }
        i += 1;
    }
    proof {
        assert(s@.subrange(0, n as int) =~= s@);
    }
    out
}

/// A decimal digit.
pub open spec fn is_digit(c: char) -> bool {
    48 <= (c as u32) && (c as u32) <= 57
}

/// Numeric value of a decimal digit.
pub open spec fn digit_value(c: char) -> nat {
    (((c as u32) - 48) as nat)
}

/// Every character of `s` is a decimal digit.
pub open spec fn all_digits(s: Seq<char>) -> bool {
    forall|i: int| 0 <= i < s.len() ==> is_digit(#[trigger] s[i])
}

/// The number a digit sequence denotes in base ten.
pub open spec fn decimal_value(s: Seq<char>) -> nat
    decreases s.len(),
{
    if s.len() == 0 {
        0
    } else {
        decimal_value(s.drop_last()) * 10 + digit_value(s.last())
    }
}

/// A digit text is well formed when it is non-empty, every character is a
/// decimal digit, and the denoted value fits an unsigned 32-bit integer.
pub open spec fn decimal_text_ok(s: Seq<char>) -> bool {
    s.len() > 0 && all_digits(s) && decimal_value(s) <= u32::MAX
}

/// A frequency attribute is well formed when, once control characters are
/// stripped, what remains is a well-formed digit text.
pub open spec fn freq_text_ok(s: Seq<char>) -> bool {
    decimal_text_ok(strip_controls(s))
}

/// The value of a digit sequence is at least the value of any prefix.
proof fn lemma_decimal_value_prefix(s: Seq<char>, k: int)
    requires
        0 <= k <= s.len(),
    ensures
        decimal_value(s) >= decimal_value(s.subrange(0, k)),
    decreases s.len(),
{
    if k == s.len() {
        assert(s.subrange(0, k) =~= s);
    } else {
        lemma_decimal_value_prefix(s.drop_last(), k);
        assert(s.drop_last().subrange(0, k) =~= s.subrange(0, k));
    }
}

/// Strict parse of a digit text: accept only a non-empty all-digit text
/// whose value fits in `u32`, and return exactly the value it denotes.
pub fn parse_decimal(s: &str) -> (r: Result<u32, CoreError>)
    ensures
        r is Ok <==> decimal_text_ok(s@),
        r is Ok ==> r->Ok_0 as nat == decimal_value(s@),
        r is Err ==> r->Err_0 == CoreError::MalformedAttribute,
{
    let n = s.unicode_len();
    if n == 0 {
        return Err(CoreError::MalformedAttribute);
    }
    let mut val: u32 = 0;
    let mut i: usize = 0;
    while i < n
        invariant
            i <= n,
            n == s@.len(),
            all_digits(s@.subrange(0, i as int)),
            val as nat == decimal_value(s@.subrange(0, i as int)),
        decreases n - i,
    {
        let c = s.get_char(i);
        let u = c as u32;
        if !(48 <= u && u <= 57) {
            proof {
                assert(!is_digit(s@[i as int]));
            }
            return Err(CoreError::MalformedAttribute);
        }
        let d = u - 48;
        proof {
            let pre = s@.subrange(0, i as int);
            let ext = s@.subrange(0, i + 1);
            assert(ext.drop_last() =~= pre);
            assert(ext.last() == s@[i as int]);
            assert(decimal_value(ext) == (val as nat) * 10 + d as nat);
        }
        if val > 429496729 || (val == 429496729 && d > 5) {
            proof {
                let ext = s@.subrange(0, i + 1);
                assert(decimal_value(ext) > u32::MAX as nat);
                lemma_decimal_value_prefix(s@, i + 1);
            }
            return Err(CoreError::MalformedAttribute);
        }
        val = val * 10 + d;
        i += 1;
    }
    proof {
        assert(s@.subrange(0, n as int) =~= s@);
    }
    Ok(val)
}

/// Strict parse of a frequency attribute: strip control characters, then
/// parse the remaining text as a decimal number.
pub fn parse_freq(s: &str) -> (r: Result<u32, CoreError>)
    ensures
        r is Ok <==> freq_text_ok(s@),
        r is Ok ==> r->Ok_0 as nat == decimal_value(strip_controls(s@)),
        r is Err ==> r->Err_0 == CoreError::MalformedAttribute,
{
    let t = strip_control_chars(s);
    parse_decimal(t.as_str())
}

/// Whether the characters of `a` and `b` are the same.
pub fn str_eq(a: &str, b: &str) -> (r: bool)
    ensures
        r == (a@ == b@),
{
    let na = a.unicode_len();
    let nb = b.unicode_len();
    if na != nb {
        return false;
    }
    let mut i: usize = 0;
    while i < na
        invariant
            i <= na,
            na == a@.len(),
            na == b@.len(),
            forall|j: int| 0 <= j < i ==> a@[j] == b@[j],
        decreases na - i,
    {
        if a.get_char(i) != b.get_char(i) {
            return false;
        }
        i += 1;
    }
    proof {
        assert(a@ =~= b@);
    }
    true
}

/// `needle` occurs in `hay` starting at position `i`.
pub open spec fn occurs_at(hay: Seq<char>, needle: Seq<char>, i: int) -> bool {
    0 <= i && i + needle.len() <= hay.len() && hay.subrange(i, i + needle.len()) == needle
}

/// `needle` occurs somewhere in `hay`.
pub open spec fn contains_seq(hay: Seq<char>, needle: Seq<char>) -> bool {
    exists|i: int| occurs_at(hay, needle, i)
}

/// Whether `needle` occurs in `hay` starting at position `i`.
pub fn matches_at(hay: &str, needle: &str, i: usize) -> (r: bool)
    requires
        i + needle@.len() <= hay@.len(),
    ensures
        r == occurs_at(hay@, needle@, i as int),
{
    let hn = hay.unicode_len();
    let m = needle.unicode_len();
    let mut j: usize = 0;
    while j < m
        invariant
            j <= m,
            m == needle@.len(),
            hn == hay@.len(),
            i + m <= hn,
            forall|k: int| 0 <= k < j ==> hay@[i + k] == needle@[k],
        decreases m - j,
    {
        if hay.get_char(i + j) != needle.get_char(j) {
            proof {
                assert(hay@.subrange(i as int, i + needle@.len())[j as int] != needle@[j as int]);
            }
            return false;
        }
        j += 1;
    }
    proof {
        assert(hay@.subrange(i as int, i + needle@.len()) =~= needle@);
    }
    true
}

/// Whether `needle` occurs anywhere in `hay`.
pub fn str_contains(hay: &str, needle: &str) -> (r: bool)
    ensures
        r == contains_seq(hay@, needle@),
{
    let n = hay.unicode_len();
    let m = needle.unicode_len();
    if m > n {
        proof {
            assert(forall|i: int| !occurs_at(hay@, needle@, i));
        }
        return false;
    }
    if m == 0 {
        proof {
            assert(hay@.subrange(0, 0) =~= needle@);
            assert(occurs_at(hay@, needle@, 0));
        }
        return true;
    }
    let mut i: usize = 0;
    while i < n - m + 1
        invariant
            i <= n - m + 1,
            0 < m <= n,
            n == hay@.len(),
            m == needle@.len(),
            forall|k: int| 0 <= k < i ==> !occurs_at(hay@, needle@, k),
        decreases n - m + 1 - i,
    {
        if matches_at(hay, needle, i) {
            return true;
        }
        i += 1;
    }
    proof {
        assert(forall|k: int| !occurs_at(hay@, needle@, k));
    }
    false
}

/// Tokens already finished and the token still being built after reading
/// `s` left to right, splitting at spaces.
pub open spec fn split_state(s: Seq<char>) -> (Seq<Seq<char>>, Seq<char>)
    decreases s.len(),
{
    if s.len() == 0 {
        (Seq::<Seq<char>>::empty(), Seq::<char>::empty())
    } else {
        let done = split_state(s.drop_last()).0;
        let cur = split_state(s.drop_last()).1;
        if s.last() == ' ' {
            if cur.len() > 0 {
                (done.push(cur), Seq::<char>::empty())
            } else {
                (done, Seq::<char>::empty())
            }
        } else {
            (done, cur.push(s.last()))
        }
    }
}

/// The space-separated tokens of `s`: its maximal runs of non-space
/// characters, in order.
pub open spec fn split_tokens(s: Seq<char>) -> Seq<Seq<char>> {
    let done = split_state(s).0;
    let cur = split_state(s).1;
    if cur.len() > 0 {
        done.push(cur)
    } else {
        done
    }
}

/// The views of the strings in `v`.
pub open spec fn views_of(v: Seq<String>) -> Seq<Seq<char>> {
    v.map_values(|t: String| t@)
}

/// Split `s` at spaces into its maximal non-space runs, dropping the spaces.
pub fn split_space_tokens(s: &str) -> (r: Vec<String>)
    ensures
        views_of(r@) == split_tokens(s@),
{
    let n = s.unicode_len();
    let mut done: Vec<String> = Vec::new();
    let mut start: usize = 0;
    let mut i: usize = 0;
    while i < n
        invariant
            start <= i <= n,
            n == s@.len(),
            split_state(s@.subrange(0, i as int)).0 == views_of(done@),
            split_state(s@.subrange(0, i as int)).1 == s@.subrange(start as int, i as int),
        decreases n - i,
    {
        let c = s.get_char(i);
        proof {
            let pre = s@.subrange(0, i as int);
            let ext = s@.subrange(0, i + 1);
            assert(ext.drop_last() =~= pre);
            assert(ext.last() == s@[i as int]);
        }
        if c == ' ' {
            if start < i {
                let tok = s.substring_char(start, i);
                let tok = tok.to_owned();
                done.push(tok);
                proof {
                    assert(views_of(done@) =~= views_of(done@.drop_last()).push(s@.subrange(start as int, i as int)));
                }
            }
            start = i + 1;
            proof {
                assert(s@.subrange(start as int, i + 1) =~= Seq::<char>::empty());
            }
        } else {
            proof {
                assert(s@.subrange(start as int, i + 1) =~= s@.subrange(start as int, i as int).push(s@[i as int]));
            }
        }
        i += 1;
    }
    proof {
        assert(s@.subrange(0, n as int) =~= s@);
    }
    if start < n {
        let tok = s.substring_char(start, n);
        let tok = tok.to_owned();
        done.push(tok);
        proof {
            assert(views_of(done@) =~= views_of(done@.drop_last()).push(s@.subrange(start as int, n as int)));
        }
    }
    done
}

/// No two elements of `xs` are the same sequence.
pub open spec fn distinct_seqs(xs: Seq<Seq<char>>) -> bool {
    forall|i: int, j: int| 0 <= i < j < xs.len() ==> xs[i] != xs[j]
}

/// Whether some string in `v` has the characters of `s`.
pub fn contains_string(v: &Vec<String>, s: &str) -> (r: bool)
    ensures
        r == views_of(v@).contains(s@),
{
    let n = v.len();
    let mut i: usize = 0;
    while i < n
        invariant
            i <= n,
            n == v@.len(),
            forall|j: int| 0 <= j < i ==> views_of(v@)[j] != s@,
        decreases n - i,
    {
        if str_eq(v[i].as_str(), s) {
            proof {
                assert(views_of(v@)[i as int] == s@);
            }
            return true;
        }
        i += 1;
    }
    false
}

/// Whether two strings in `v` have the same characters.
pub fn has_duplicate_string(v: &Vec<String>) -> (r: bool)
    ensures
        r == !distinct_seqs(views_of(v@)),
{
    let n = v.len();
    let mut i: usize = 0;
    while i < n
        invariant
            i <= n,
            n == v@.len(),
            forall|a: int, b: int| 0 <= a < b < n && a < i ==> views_of(v@)[a] != views_of(v@)[b],
        decreases n - i,
    {
        let mut j: usize = i + 1;
        while j < n
            invariant
                i < j <= n,
                n == v@.len(),
                forall|b: int| i < b < j ==> views_of(v@)[i as int] != views_of(v@)[b],
            decreases n - j,
        {
            if str_eq(v[i].as_str(), v[j].as_str()) {
                proof {
                    assert(views_of(v@)[i as int] == views_of(v@)[j as int]);
                }
                return true;
            }
            j += 1;
        }
        i += 1;
    }
    false
}

} // verus!
