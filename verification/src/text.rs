//! Character-level operations on path strings.

use vstd::prelude::*;

verus! {

/// Appends one character at the end of a string.
///
/// Wraps `String::push`: the contract claims the string afterwards holds its
/// old characters followed by `c`, and nothing else.
#[verifier::external_body]
pub(crate) fn push_char(s: &mut String, c: char)
    ensures
        final(s)@ == old(s)@.push(c),
{
    s.push(c);
}

/// The ASCII lowercase form of one character; other characters are kept.
pub open spec fn lower_char(c: char) -> char {
    if 'A' <= c && c <= 'Z' {
        ((c as u32) + 32) as char
    } else {
        c
    }
}

/// The ASCII lowercase form of a string, character by character.
pub open spec fn lowercase(s: Seq<char>) -> Seq<char> {
    s.map_values(|c: char| lower_char(c))
}

/// Law: ASCII lowercasing keeps the length and every character but the
/// ASCII capitals `A` to `Z`, each of which becomes its small letter (32
/// code points further on).
pub proof fn lemma_lowercase_changes_only_capitals(s: Seq<char>)
    ensures
        lowercase(s).len() == s.len(),
        forall|i: int| 0 <= i < s.len() ==> {
            &&& ('A' <= s[i] && s[i] <= 'Z') ==> (#[trigger] lowercase(s)[i]) as u32 == (s[i] as u32) + 32
            &&& !('A' <= s[i] && s[i] <= 'Z') ==> lowercase(s)[i] == s[i]
        },
{
}

/// Whether two characters are equal or are the capital and small form of
/// the same ASCII letter.
pub open spec fn same_ignoring_ascii_case(a: char, b: char) -> bool {
    ||| a == b
    ||| ('A' <= a && a <= 'Z' && (b as u32) == (a as u32) + 32)
    ||| ('A' <= b && b <= 'Z' && (a as u32) == (b as u32) + 32)
}

/// Law: two strings have the same ASCII lowercase form only if they have
/// the same length and differ at most in the case of ASCII letters; every
/// other character (digits, separators, non-ASCII) must be equal.
pub proof fn lemma_same_lowercase_only_by_case(p: Seq<char>, q: Seq<char>)
    requires
        lowercase(p) == lowercase(q),
    ensures
        p.len() == q.len(),
        forall|i: int| 0 <= i < p.len() ==> same_ignoring_ascii_case(#[trigger] p[i], q[i]),
{
    assert(p.len() == q.len()) by {
        assert(lowercase(p).len() == p.len());
        assert(lowercase(q).len() == q.len());
    }
    assert forall|i: int| 0 <= i < p.len() implies same_ignoring_ascii_case(#[trigger] p[i], q[i]) by {
        let a = p[i];
        let b = q[i];
        let la = lower_char(a);
        let lb = lower_char(b);
        assert(lowercase(p)[i] == la);
        assert(lowercase(q)[i] == lb);
        assert(la == lb);
        if 'A' <= a && a <= 'Z' {
            assert(la as u32 == (a as u32) + 32);
        }
        if 'A' <= b && b <= 'Z' {
            assert(lb as u32 == (b as u32) + 32);
        }
    }
}

/// Lowercasing twice is lowercasing once.
pub proof fn lemma_lowercase_idempotent(s: Seq<char>)
    ensures
        lowercase(lowercase(s)) == lowercase(s),
{
    assert forall|i: int| 0 <= i < s.len() implies #[trigger] lower_char(lower_char(s[i])) == lower_char(s[i]) by {
        let c = s[i];
        if 'A' <= c && c <= 'Z' {
            assert(lower_char(c) as u32 == (c as u32) + 32);
        }
    }
    assert(lowercase(lowercase(s)) =~= lowercase(s));
}

/// Lowercases the ASCII letters of `s` and keeps every other character.
pub fn to_ascii_lowercase(s: &str) -> (res: String)
    ensures
        res@ == lowercase(s@),
        res@.len() == s@.len(),
        forall|i: int| 0 <= i < s@.len() ==> {
            &&& ('A' <= s@[i] && s@[i] <= 'Z') ==> (#[trigger] res@[i]) as u32 == (s@[i] as u32) + 32
            &&& !('A' <= s@[i] && s@[i] <= 'Z') ==> res@[i] == s@[i]
        },
{
    proof {
        lemma_lowercase_changes_only_capitals(s@);
    }
    let n = s.unicode_len();
    let mut res = String::new();
    let mut i: usize = 0;
    while i < n
        invariant
            n == s@.len(),
            i <= n,
            res@ == lowercase(s@.subrange(0, i as int)),
        decreases n - i,
    {
        let c = s.get_char(i);
        let lc = if 'A' <= c && c <= 'Z' {
            ((c as u8) + 32) as char
        } else {
            c
        };
        assert(lc == lower_char(c));
        push_char(&mut res, lc);
        assert(s@.subrange(0, i + 1) =~= s@.subrange(0, i as int).push(c));
        assert(lowercase(s@.subrange(0, i + 1)) =~= lowercase(s@.subrange(0, i as int)).push(
            lower_char(c),
        ));
        i = i + 1;
    }
    assert(s@.subrange(0, n as int) =~= s@);
    res
}


/// Copies a string slice into an owned string.
pub(crate) fn owned(s: &str) -> (res: String)
    ensures
        res@ == s@,
{
    String::from_str(s)
}

/// Appends all characters of `tail` to `s`.
pub(crate) fn append_str(s: &mut String, tail: &str)
    ensures
        final(s)@ == old(s)@ + tail@,
{
    s.append(tail);
}

/// The path that results from joining `rel` onto `base` with Unix separators:
/// an absolute `rel` (one that starts with `/`) replaces `base`; otherwise a
/// `/` is put between the two unless `base` is empty or already ends in `/`.
pub open spec fn joined(base: Seq<char>, rel: Seq<char>) -> Seq<char> {
    if rel.len() > 0 && rel[0] == '/' {
        rel
    } else if base.len() == 0 || base.last() == '/' {
        base + rel
    } else {
        base + seq!['/'] + rel
    }
}

/// Law: joining keeps both parts. An absolute `rel` is the result; otherwise
/// the result is `base`, then one `/` when `base` is non-empty and does not
/// already end in `/`, then `rel`.
pub proof fn lemma_joined_shape(base: Seq<char>, rel: Seq<char>)
    ensures
        rel.len() > 0 && rel[0] == '/' ==> joined(base, rel) == rel,
        !(rel.len() > 0 && rel[0] == '/') ==> {
            let sep: int = if base.len() > 0 && base[base.len() - 1] != '/' { 1 } else { 0 };
            &&& joined(base, rel).len() == base.len() + sep + rel.len()
            &&& joined(base, rel).subrange(0, base.len() as int) == base
            &&& joined(base, rel).subrange(base.len() + sep, joined(base, rel).len() as int) == rel
            &&& sep == 1 ==> joined(base, rel)[base.len() as int] == '/'
        },
{
    if !(rel.len() > 0 && rel[0] == '/') {
        let j = joined(base, rel);
        let sep: int = if base.len() > 0 && base[base.len() - 1] != '/' { 1 } else { 0 };
        assert(j.subrange(0, base.len() as int) =~= base);
        assert(j.subrange(base.len() + sep, j.len() as int) =~= rel);
    }
}

/// Law: what reads as a `u32` is a non-empty run of ASCII digits, after an
/// optional leading `+`; a leading `-` never reads; and a `+` before the
/// decimal form of a number reads as that number.
pub proof fn lemma_parsed_u32_shape(s: Seq<char>, n: u32)
    ensures
        parsed_u32(s) is Some ==> {
            let start: int = if s[0] == '+' { 1 } else { 0 };
            &&& s.len() > start
            &&& forall|i: int| start <= i < s.len() ==> is_digit(#[trigger] s[i])
        },
        s.len() > 0 && s[0] == '-' ==> parsed_u32(s) is None,
        parsed_u32(seq!['+'] + decimal(n as nat)) == Some(n),
{
    if parsed_u32(s) is Some {
        let start: int = if s[0] == '+' { 1 } else { 0 };
        let digits = if s.len() > 0 && s[0] == '+' { s.drop_first() } else { s };
        assert forall|i: int| start <= i < s.len() implies is_digit(#[trigger] s[i]) by {
            assert(digits[i - start] == s[i]);
        }
    }
    if s.len() > 0 && s[0] == '-' {
        assert(!is_digit(s[0]));
    }
    lemma_decimal_digits(n as nat);
    let t = seq!['+'] + decimal(n as nat);
    assert(t.drop_first() =~= decimal(n as nat));
}

/// Joins `rel` onto `base` as a Unix path join does.
pub fn join_path(base: &str, rel: &str) -> (res: String)
    ensures
        res@ == joined(base@, rel@),
{
    let rel_len = rel.unicode_len();
    if rel_len > 0 && rel.get_char(0) == '/' {
        return owned(rel);
    }
    let base_len = base.unicode_len();
    let mut res = owned(base);
    if base_len > 0 && base.get_char(base_len - 1) != '/' {
        push_char(&mut res, '/');
    }
    append_str(&mut res, rel);
    res
}

/// The text after the last `.` of `path`, or `None` when it holds no `.`.
pub open spec fn extension_of(path: Seq<char>) -> Option<Seq<char>>
    decreases path.len(),
{
    if path.len() == 0 {
        None
    } else if path.last() == '.' {
        Some(Seq::empty())
    } else {
        match extension_of(path.drop_last()) {
            Some(ext) => Some(ext.push(path.last())),
            None => None,
        }
    }
}

/// The index of the last `.` in `path`, when there is one.
pub open spec fn last_dot(path: Seq<char>) -> Option<int>
    decreases path.len(),
{
    if path.len() == 0 {
        None
    } else if path.last() == '.' {
        Some(path.len() - 1)
    } else {
        last_dot(path.drop_last())
    }
}

/// `extension_of` is the text behind the position that `last_dot` names, and
/// that position holds the last `.` of the path.
pub proof fn lemma_extension_at_last_dot(path: Seq<char>)
    ensures
        extension_of(path) is None <==> last_dot(path) is None,
        last_dot(path) is None ==> forall|k: int| 0 <= k < path.len() ==> path[k] != '.',
        last_dot(path) matches Some(i) ==> {
            &&& 0 <= i < path.len()
            &&& path[i] == '.'
            &&& forall|k: int| i < k < path.len() ==> path[k] != '.'
            &&& extension_of(path) == Some(path.subrange(i + 1, path.len() as int))
        },
    decreases path.len(),
{
    if path.len() > 0 {
        lemma_extension_at_last_dot(path.drop_last());
        if path.last() != '.' {
            if let Some(i) = last_dot(path.drop_last()) {
                assert(path.subrange(i + 1, path.len() as int) =~= path.drop_last().subrange(
                    i + 1,
                    path.drop_last().len() as int,
                ).push(path.last()));
            }
            assert forall|k: int| 0 <= k < path.len() - 1 implies path[k] == path.drop_last()[k] by {}
        } else {
            assert(path.subrange(path.len() as int, path.len() as int) =~= Seq::<char>::empty());
        }
    }
}

/// Whether `c` is one of the ASCII digits `0` to `9`.
pub open spec fn is_digit(c: char) -> bool {
    '0' <= c && c <= '9'
}

/// The value of an ASCII digit.
pub open spec fn digit_value(c: char) -> nat {
    ((c as u32) - ('0' as u32)) as nat
}

/// The digit character of a value below ten.
pub open spec fn digit_char(d: nat) -> char {
    (('0' as u32) + d) as char
}

/// Whether every character of `s` is an ASCII digit.
pub open spec fn all_digits(s: Seq<char>) -> bool {
    forall|i: int| 0 <= i < s.len() ==> is_digit(#[trigger] s[i])
}

/// The value of a string of decimal digits, most significant first.
pub open spec fn digits_value(s: Seq<char>) -> nat
    decreases s.len(),
{
    if s.len() == 0 {
        0
    } else {
        digits_value(s.drop_last()) * 10 + digit_value(s.last())
    }
}

/// What `str::parse::<u32>` accepts: an optional leading `+` followed by at
/// least one ASCII digit and nothing else, whose value fits in a `u32`.
pub open spec fn parsed_u32(s: Seq<char>) -> Option<u32> {
    let digits = if s.len() > 0 && s[0] == '+' {
        s.drop_first()
    } else {
        s
    };
    if digits.len() > 0 && all_digits(digits) && digits_value(digits) <= u32::MAX {
        Some(digits_value(digits) as u32)
    } else {
        None
    }
}

/// Parses a decimal `u32` with the grammar of `str::parse::<u32>`.
pub fn parse_u32(s: &str) -> (res: Option<u32>)
    ensures
        res == parsed_u32(s@),
{
    let n = s.unicode_len();
    let start: usize = if n > 0 && s.get_char(0) == '+' {
        1
    } else {
        0
    };
    let ghost digits = if s@.len() > 0 && s@[0] == '+' {
        s@.drop_first()
    } else {
        s@
    };
    assert(digits =~= s@.subrange(start as int, n as int));
    if start == n {
        assert(digits.len() == 0);
        return None;
    }
    let mut acc: u64 = 0;
    let mut overflow = false;
    let mut i: usize = start;
    while i < n
        invariant
            n == s@.len(),
            start <= i <= n,
            digits == s@.subrange(start as int, n as int),
            digits == (if s@.len() > 0 && s@[0] == '+' {
                s@.drop_first()
            } else {
                s@
            }),
            all_digits(s@.subrange(start as int, i as int)),
            !overflow ==> acc == digits_value(s@.subrange(start as int, i as int)),
            !overflow ==> acc <= u32::MAX,
            overflow ==> digits_value(s@.subrange(start as int, i as int)) > u32::MAX,
        decreases n - i,
    {
        let c = s.get_char(i);
        let ghost prefix = s@.subrange(start as int, i as int);
        let ghost next = s@.subrange(start as int, i + 1);
        assert(next.drop_last() =~= prefix);
        assert(next.last() == c);
        if !('0' <= c && c <= '9') {
            assert(!all_digits(digits)) by {
                assert(digits[i - start] == c);
            }
            return None;
        }
        assert(all_digits(next)) by {
            assert forall|k: int| 0 <= k < next.len() implies is_digit(#[trigger] next[k]) by {
                if k < prefix.len() {
                    assert(next[k] == prefix[k]);
                }
            }
        }
        let d = (c as u32 - '0' as u32) as u64;
        assert(d == digit_value(c));
        if !overflow {
            let v = acc * 10 + d;
            if v > u32::MAX as u64 {
                overflow = true;
            } else {
                acc = v;
            }
        }
        i = i + 1;
    }
    assert(s@.subrange(start as int, n as int) == digits);
    if overflow {
        None
    } else {
        Some(acc as u32)
    }
}

/// The decimal digits of `n`, without leading zeros.
pub open spec fn decimal(n: nat) -> Seq<char>
    decreases n,
{
    if n < 10 {
        seq![digit_char(n)]
    } else {
        decimal(n / 10).push(digit_char(n % 10))
    }
}

/// Appends the decimal digits of `n` to `s`.
pub(crate) fn push_decimal(s: &mut String, n: u32)
    ensures
        final(s)@ == old(s)@ + decimal(n as nat),
    decreases n,
{
    if n >= 10 {
        push_decimal(s, n / 10);
    }
    let d = n % 10;
    let c = (('0' as u8) + (d as u8)) as char;
    assert(c == digit_char(d as nat));
    push_char(s, c);
    proof {
        if n >= 10 {
            assert(decimal(n as nat) == decimal((n / 10) as nat).push(digit_char(d as nat)));
        } else {
            assert(decimal(n as nat) =~= seq![digit_char(d as nat)]);
        }
    }
}

/// Every decimal form is a non-empty string of digits whose value is the number.
pub proof fn lemma_decimal_digits(n: nat)
    ensures
        decimal(n).len() > 0,
        all_digits(decimal(n)),
        digits_value(decimal(n)) == n,
    decreases n,
{
    if n >= 10 {
        lemma_decimal_digits(n / 10);
        let d = decimal(n);
        assert(d.drop_last() =~= decimal(n / 10));
        assert(digit_value(digit_char(n % 10)) == n % 10);
        assert(n == (n / 10) * 10 + n % 10);
        assert(d.last() == digit_char(n % 10));
        assert(digits_value(d) == digits_value(d.drop_last()) * 10 + digit_value(d.last()));
        assert forall|i: int| 0 <= i < d.len() implies is_digit(#[trigger] d[i]) by {
            if i < d.len() - 1 {
                assert(d[i] == decimal(n / 10)[i]);
            }
        }
    } else {
        assert(decimal(n).drop_last() =~= Seq::<char>::empty());
        assert(digit_value(digit_char(n)) == n);
        let d = decimal(n);
        assert(digits_value(d) == digits_value(d.drop_last()) * 10 + digit_value(d.last()));
    }
}

/// Law: parsing the decimal form of a `u32` gives the number back.
pub proof fn lemma_parse_decimal_roundtrip(n: u32)
    ensures
        parsed_u32(decimal(n as nat)) == Some(n),
{
    lemma_decimal_digits(n as nat);
    let d = decimal(n as nat);
    assert(is_digit(d[0]));
}

} // verus!
