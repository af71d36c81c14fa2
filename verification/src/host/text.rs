//! Byte-level helpers for the small `key=value` text files the app keeps (configuration,
//! story progress, statistics): lines, trimming, `key=value` splitting and number parsing.
use vstd::prelude::*;
use vstd::string::StringExecFns;
use vstd::string::StringSliceAdditionalSpecFns;

verus! {

/// ASCII whitespace: space, tab, line feed, vertical tab, form feed, carriage return.
pub open spec fn is_space(b: u8) -> bool {
    b == 32 || (9 <= b && b <= 13)
}

/// The number of leading whitespace bytes.
pub open spec fn lead(s: Seq<u8>) -> int
    decreases s.len(),
{
    if s.len() > 0 && is_space(s[0]) { 1 + lead(s.drop_first()) } else { 0 }
}

/// The number of trailing whitespace bytes.
pub open spec fn trail(s: Seq<u8>) -> int
    decreases s.len(),
{
    if s.len() > 0 && is_space(s.last()) { 1 + trail(s.drop_last()) } else { 0 }
}

/// `s` without leading and trailing whitespace.
pub open spec fn trim(s: Seq<u8>) -> Seq<u8> {
    if lead(s) >= s.len() { Seq::empty() } else { s.subrange(lead(s), s.len() - trail(s)) }
}

/// The index of the first `b` in `s`, or `s.len()` when there is none.
pub open spec fn first_of(s: Seq<u8>, b: u8) -> int
    decreases s.len(),
{
    if s.len() == 0 {
        0
    } else if s[0] == b {
        0
    } else {
        1 + first_of(s.drop_first(), b)
    }
}

/// The first index of a byte lies within the string.
pub proof fn lemma_first_of_range(s: Seq<u8>, b: u8)
    ensures
        0 <= first_of(s, b) <= s.len(),
    decreases s.len(),
{
    if s.len() > 0 && s[0] != b {
        lemma_first_of_range(s.drop_first(), b);
    }
}

/// The lines of `s`: the pieces between line feeds (no trailing empty piece).
pub open spec fn lines_of(s: Seq<u8>) -> Seq<Seq<u8>>
    decreases s.len(),
{
    if s.len() == 0 {
        Seq::empty()
    } else {
        let k = first_of(s, 10);
        if k < s.len() {
            proof {
                lemma_first_of_range(s, 10);
            }
            seq![s.take(k)] + lines_of(s.skip(k + 1))
        } else {
            seq![s]
        }
    }
}

/// ASCII lower case of one byte.
pub open spec fn lower(c: u8) -> u8 {
    if 65 <= c && c <= 90 { (c + 32) as u8 } else { c }
}

/// ASCII lower case of a byte string.
pub open spec fn lower_seq(s: Seq<u8>) -> Seq<u8> {
    Seq::new(s.len(), |i: int| lower(s[i]))
}

/// Whether every byte is an ASCII digit.
pub open spec fn all_digits(s: Seq<u8>) -> bool {
    forall|i: int| 0 <= i < s.len() ==> 48 <= #[trigger] s[i] <= 57
}

/// The decimal value of a string of digits.
pub open spec fn digits_value(s: Seq<u8>) -> nat
    decreases s.len(),
{
    if s.len() == 0 { 0 } else { (digits_value(s.drop_last()) * 10 + (s.last() - 48)) as nat }
}

/// The value of an unsigned decimal number (an optional `+`, then one or more digits).
pub open spec fn parse_uint(s: Seq<u8>) -> Option<nat> {
    let d = if s.len() > 0 && s[0] == 43 { s.drop_first() } else { s };
    if d.len() > 0 && all_digits(d) { Some(digits_value(d)) } else { None }
}

/// The value of a signed decimal number (an optional `+` or `-`, then one or more digits).
pub open spec fn parse_int(s: Seq<u8>) -> Option<int> {
    if s.len() > 0 && s[0] == 45 {
        let d = s.drop_first();
        if d.len() > 0 && all_digits(d) { Some(-digits_value(d)) } else { None }
    } else {
        match parse_uint(s) {
            Some(v) => Some(v as int),
            None => None,
        }
    }
}

/// What one line of a `key=value` file is: nothing (blank or a `#` comment), a
/// `(key, value)` pair (both trimmed, split at the first `=`), or malformed (no `=`).
pub open spec fn line_entry(line: Seq<u8>) -> Option<Option<(Seq<u8>, Seq<u8>)>> {
    let t = trim(line);
    if t.len() == 0 || t[0] == 35 {
        None
    } else {
        let k = first_of(t, 61);
        if k < t.len() {
            Some(Some((trim(t.take(k)), trim(t.skip(k + 1)))))
        } else {
            Some(None)
        }
    }
}

/// The first index of `b` in `s` (or its length).
pub fn find_byte(s: &[u8], b: u8) -> (i: usize)
    ensures
        i == first_of(s@, b),
        i <= s@.len(),
        forall|j: int| 0 <= j < i ==> s@[j] != b,
        i < s@.len() ==> s@[i as int] == b,
{
    let mut i: usize = 0;
    assert(s@.subrange(0, s@.len() as int) =~= s@);
    while i < s.len()
        invariant
            i <= s@.len(),
            forall|j: int| 0 <= j < i ==> s@[j] != b,
            first_of(s@, b) == i + first_of(s@.subrange(i as int, s@.len() as int), b),
        ensures
            i <= s@.len(),
            forall|j: int| 0 <= j < i ==> s@[j] != b,
            i < s@.len() ==> s@[i as int] == b,
            first_of(s@, b) == i,
        decreases s.len() - i,
    {
        if s[i] == b {
            break;
        }
        proof {
            let rest = s@.subrange(i as int, s@.len() as int);
            assert(rest.drop_first() =~= s@.subrange(i + 1, s@.len() as int));
        }
        i = i + 1;
    }
    i
}

/// `s` without leading and trailing whitespace.
pub fn trim_bytes(s: &[u8]) -> (t: &[u8])
    ensures
        t@ == trim(s@),
{
    let n = s.len();
    let mut a: usize = 0;
    assert(s@.subrange(0, n as int) =~= s@);
    while a < n && (s[a] == 32 || (9 <= s[a] && s[a] <= 13))
        invariant
            a <= n,
            n == s@.len(),
            lead(s@) == a + lead(s@.subrange(a as int, n as int)),
        decreases n - a,
    {
        proof {
            let rest = s@.subrange(a as int, n as int);
            assert(rest.drop_first() =~= s@.subrange(a + 1, n as int));
        }
        a = a + 1;
    }
    if a >= n {
        return vstd::slice::slice_subrange(s, 0, 0);
    }
    let mut b: usize = n;
    assert(s@.subrange(0, n as int) =~= s@);
    while b > a && (s[b - 1] == 32 || (9 <= s[b - 1] && s[b - 1] <= 13))
        invariant
            a < n,
            a < b <= n,
            n == s@.len(),
            lead(s@) == a,
            trail(s@) == (n - b) + trail(s@.subrange(0, b as int)),
            !is_space(s@[a as int]),
        decreases b,
    {
        proof {
            let pre = s@.subrange(0, b as int);
            assert(pre.drop_last() =~= s@.subrange(0, b - 1));
        }
        b = b - 1;
    }
    proof {
        assert(trail(s@.subrange(0, b as int)) == 0);
    }
    vstd::slice::slice_subrange(s, a, b)
}

/// The views of a list of byte slices.
pub open spec fn views(v: Seq<&[u8]>) -> Seq<Seq<u8>> {
    Seq::new(v.len(), |i: int| v[i]@)
}

/// Split `text` into its lines (between line feeds; no trailing empty line).
pub fn split_lines(text: &[u8]) -> (v: Vec<&[u8]>)
    ensures
        views(v@) == lines_of(text@),
{
    let mut v: Vec<&[u8]> = Vec::new();
    let n = text.len();
    let mut pos: usize = 0;
    assert(text@.skip(0) =~= text@);
    while pos < n
        invariant
            pos <= n,
            n == text@.len(),
            views(v@) + lines_of(text@.skip(pos as int)) == lines_of(text@),
        decreases n - pos,
    {
        let rest = vstd::slice::slice_subrange(text, pos, n);
        let k = find_byte(rest, 10);
        let line = vstd::slice::slice_subrange(rest, 0, k);
        let ghost before = v@;
        v.push(line);
        proof {
            assert(rest@ =~= text@.skip(pos as int));
            assert(views(v@) =~= views(before).push(rest@.take(k as int)));
        }
        if k < rest.len() {
            proof {
                assert(rest@.skip(k + 1) =~= text@.skip(pos + k + 1));
                assert(views(v@) + lines_of(text@.skip(pos + k + 1)) =~= views(before) + lines_of(rest@));
            }
            pos = pos + k + 1;
        } else {
            proof {
                assert(rest@.take(k as int) =~= rest@);
                assert(views(v@) =~= views(before) + lines_of(rest@));
                assert(text@.skip(n as int) =~= Seq::<u8>::empty());
            }
            pos = n;
        }
    }
    proof {
        assert(text@.skip(n as int) =~= Seq::<u8>::empty());
        assert(views(v@) + lines_of(text@.skip(n as int)) =~= views(v@));
    }
    v
}

/// Read one line of a `key=value` file (see [`line_entry`]).
pub fn parse_line(line: &[u8]) -> (r: Option<Option<(&[u8], &[u8])>>)
    ensures
        match line_entry(line@) {
            None => r is None,
            Some(None) => r == Some(None::<(&[u8], &[u8])>),
            Some(Some((k, v))) => r matches Some(Some((a, b))) && a@ == k && b@ == v,
        },
{
    let t = trim_bytes(line);
    if t.len() == 0 || t[0] == 35 {
        return None;
    }
    let k = find_byte(t, 61);
    if k < t.len() {
        let kpart = vstd::slice::slice_subrange(t, 0, k);
        let vpart = vstd::slice::slice_subrange(t, k + 1, t.len());
        proof {
            assert(kpart@ =~= t@.take(k as int));
            assert(vpart@ =~= t@.skip(k + 1));
        }
        let key = trim_bytes(kpart);
        let value = trim_bytes(vpart);
        Some(Some((key, value)))
    } else {
        Some(None)
    }
}

/// Whether `s`, in ASCII lower case, equals `word`.
pub fn eq_lower(s: &[u8], word: &[u8]) -> (b: bool)
    ensures
        b == (lower_seq(s@) == word@),
{
    if s.len() != word.len() {
        proof {
            assert(lower_seq(s@).len() != word@.len());
        }
        return false;
    }
    let mut i: usize = 0;
    while i < s.len()
        invariant
            i <= s@.len(),
            s@.len() == word@.len(),
            forall|j: int| 0 <= j < i ==> lower(s@[j]) == word@[j],
        decreases s@.len() - i,
    {
        let c = s[i];
        let l = if 65 <= c && c <= 90 { c + 32 } else { c };
        if l != word[i] {
            proof {
                assert(lower_seq(s@)[i as int] != word@[i as int]);
            }
            return false;
        }
        i = i + 1;
    }
    proof {
        assert(lower_seq(s@) =~= word@);
    }
    true
}

/// Parse an unsigned decimal number that fits in a `u64` (as `u64::from_str` does).
pub fn parse_u64(s: &[u8]) -> (r: Option<u64>)
    ensures
        r == (match parse_uint(s@) {
            Some(v) => if v <= u64::MAX { Some(v as u64) } else { None::<u64> },
            None => None::<u64>,
        }),
{
    let start: usize = if s.len() > 0 && s[0] == 43 { 1 } else { 0 };
    let ghost d = if s@.len() > 0 && s@[0] == 43 { s@.drop_first() } else { s@ };
    assert(d =~= s@.skip(start as int));
    if start >= s.len() {
        return None;
    }
    let mut v: u64 = 0;
    let mut over = false;
    let mut i: usize = start;
    while i < s.len()
        invariant
            start <= i <= s@.len(),
            d =~= s@.skip(start as int),
            d == (if s@.len() > 0 && s@[0] == 43 { s@.drop_first() } else { s@ }),
            all_digits(s@.subrange(start as int, i as int)),
            !over ==> v == digits_value(s@.subrange(start as int, i as int)),
            over ==> digits_value(s@.subrange(start as int, i as int)) > u64::MAX,
        decreases s@.len() - i,
    {
        let c = s[i];
        if c < 48 || c > 57 {
            proof {
                assert(d[i - start] == c);
            }
            return None;
        }
        let digit = (c - 48) as u64;
        proof {
            let pre = s@.subrange(start as int, i as int);
            let nxt = s@.subrange(start as int, i + 1);
            assert(nxt.drop_last() =~= pre);
            assert(digits_value(nxt) == digits_value(pre) * 10 + digit);
            assert(all_digits(nxt));
        }
        if over || v > (u64::MAX - digit) / 10 {
            over = true;
        } else {
            v = v * 10 + digit;
        }
        i = i + 1;
    }
    proof {
        assert(s@.subrange(start as int, s@.len() as int) =~= d);
    }
    if over { None } else { Some(v) }
}

/// Parse a signed decimal number that fits in an `i32` (as `i32::from_str` does).
pub fn parse_i32(s: &[u8]) -> (r: Option<i32>)
    ensures
        r == (match parse_int(s@) {
            Some(v) => if i32::MIN <= v <= i32::MAX { Some(v as i32) } else { None::<i32> },
            None => None::<i32>,
        }),
{
    if s.len() > 0 && s[0] == 45 {
        let rest = vstd::slice::slice_subrange(s, 1, s.len());
        proof {
            assert(rest@ =~= s@.drop_first());
        }
        if rest.len() > 0 && rest[0] == 43 {
            proof {
                assert(!all_digits(rest@));
            }
            return None;
        }
        match parse_u64(rest) {
            Some(v) => {
                if v <= 0x8000_0000 {
                    Some((0 - v as i64) as i32)
                } else {
                    None
                }
            },
            None => None,
        }
    } else {
        match parse_u64(s) {
            Some(v) => {
                if v <= 0x7fff_ffff {
                    Some(v as i32)
                } else {
                    None
                }
            },
            None => None,
        }
    }
}

/// The decimal digits of `v`, most significant first.
pub open spec fn decimal(v: nat) -> Seq<char>
    decreases v,
{
    if v < 10 {
        seq![digit_char(v)]
    } else {
        decimal(v / 10).push(digit_char(v % 10))
    }
}

/// The character of a decimal digit.
pub open spec fn digit_char(d: nat) -> char {
    if d == 0 { '0' } else if d == 1 { '1' } else if d == 2 { '2' } else if d == 3 { '3' }
    else if d == 4 { '4' } else if d == 5 { '5' } else if d == 6 { '6' } else if d == 7 { '7' }
    else if d == 8 { '8' } else { '9' }
}

/// Append the text of one decimal digit.
fn push_digit(s: &mut String, d: u64)
    requires
        d < 10,
    ensures
        final(s)@ == old(s)@.push(digit_char(d as nat)),
{
    if d == 0 {
        proof { reveal_strlit("0"); }
        s.append("0");
    } else if d == 1 {
        proof { reveal_strlit("1"); }
        s.append("1");
    } else if d == 2 {
        proof { reveal_strlit("2"); }
        s.append("2");
    } else if d == 3 {
        proof { reveal_strlit("3"); }
        s.append("3");
    } else if d == 4 {
        proof { reveal_strlit("4"); }
        s.append("4");
    } else if d == 5 {
        proof { reveal_strlit("5"); }
        s.append("5");
    } else if d == 6 {
        proof { reveal_strlit("6"); }
        s.append("6");
    } else if d == 7 {
        proof { reveal_strlit("7"); }
        s.append("7");
    } else if d == 8 {
        proof { reveal_strlit("8"); }
        s.append("8");
    } else {
        proof { reveal_strlit("9"); }
        s.append("9");
    }
}

/// Append the decimal text of `v`.
pub fn push_decimal(s: &mut String, v: u64)
    ensures
        final(s)@ == old(s)@ + decimal(v as nat),
    decreases v,
{
    if v < 10 {
        push_digit(s, v);
        assert(decimal(v as nat) =~= seq![digit_char(v as nat)]);
    } else {
        push_decimal(s, v / 10);
        push_digit(s, v % 10);
    }
}

/// Append `-` and the decimal text of `-v` for a negative `v`, or the text of `v`.
pub fn push_signed(s: &mut String, v: i64)
    ensures
        final(s)@ == old(s)@ + signed_decimal(v as int),
{
    if v < 0 {
        proof { reveal_strlit("-"); }
        s.append("-");
        let m: u64 = if v == i64::MIN { 0x8000_0000_0000_0000 } else { (0 - v) as u64 };
        push_decimal(s, m);
    } else {
        push_decimal(s, v as u64);
    }
}

/// The decimal text of an integer, with a leading `-` when negative.
pub open spec fn signed_decimal(v: int) -> Seq<char> {
    if v < 0 { seq!['-'] + decimal((-v) as nat) } else { decimal(v as nat) }
}

/// Whether two byte strings are equal.
pub fn eq_bytes(a: &[u8], b: &[u8]) -> (r: bool)
    ensures
        r == (a@ == b@),
{
    if a.len() != b.len() {
        return false;
    }
    let mut i: usize = 0;
    while i < a.len()
        invariant
            i <= a@.len(),
            a@.len() == b@.len(),
            forall|j: int| 0 <= j < i ==> a@[j] == b@[j],
        decreases a@.len() - i,
    {
        if a[i] != b[i] {
            return false;
        }
        i = i + 1;
    }
    assert(a@ =~= b@);
    true
}

/// Whether `s` is one of the words that read as `true` (`true`, `yes`, `1`, `on`) or
/// `false` (`false`, `no`, `0`, `off`), in any ASCII case.
pub open spec fn bool_word(s: Seq<u8>) -> Option<bool> {
    let l = lower_seq(s);
    if l == "true".spec_bytes() || l == "yes".spec_bytes() || l == "1".spec_bytes() || l == "on".spec_bytes() {
        Some(true)
    } else if l == "false".spec_bytes() || l == "no".spec_bytes() || l == "0".spec_bytes() || l
        == "off".spec_bytes() {
        Some(false)
    } else {
        None
    }
}

/// Read a boolean word (see [`bool_word`]).
pub fn parse_bool(s: &[u8]) -> (r: Option<bool>)
    ensures
        r == bool_word(s@),
{
    if eq_lower(s, "true".as_bytes()) || eq_lower(s, "yes".as_bytes()) || eq_lower(s, "1".as_bytes())
        || eq_lower(s, "on".as_bytes()) {
        Some(true)
    } else if eq_lower(s, "false".as_bytes()) || eq_lower(s, "no".as_bytes()) || eq_lower(
        s,
        "0".as_bytes(),
    ) || eq_lower(s, "off".as_bytes()) {
        Some(false)
    } else {
        None
    }
}

} // verus!
