//! What the writer and the reader of the small `key=value` files agree on: a text made of
//! lines, each followed by a line feed, reads back as those lines; a line starting with
//! `#` is a comment; `key=value` reads back as its key and value; and the decimal numbers
//! and words the writer emits read back as the values they were written from.
use vstd::prelude::*;
use vstd::utf8::encode_utf8;
use vstd::utf8::encode_scalar;
use vstd::utf8::is_ascii_chars;
use crate::host::text::{
    lines_of, first_of, line_entry, trim, lead, trail, is_space, parse_uint, parse_int, decimal,
    digit_char, digits_value, all_digits, signed_decimal, lower, lower_seq,
};

verus! {

/// The text made of the lines `ls`, each followed by a line feed.
#[verifier::opaque]
pub open spec fn lines_text(ls: Seq<Seq<char>>) -> Seq<char>
    decreases ls.len(),
{
    if ls.len() == 0 {
        Seq::empty()
    } else {
        ls[0] + seq!['\n'] + lines_text(ls.drop_first())
    }
}

/// A `key=value` line.
pub open spec fn kv_line(k: Seq<char>, v: Seq<char>) -> Seq<char> {
    k + seq!['='] + v
}

/// Whether `l` holds no line feed.
pub open spec fn one_line(l: Seq<char>) -> bool {
    forall|i: int| 0 <= i < l.len() ==> l[i] != '\n'
}

/// Characters of a key: lower-case ASCII letters and `_`.
pub open spec fn key_char(c: char) -> bool {
    ('a' <= c <= 'z') || c == '_'
}

/// Characters of a written value: lower-case ASCII letters, digits and `-`.
pub open spec fn value_char(c: char) -> bool {
    ('a' <= c <= 'z') || ('0' <= c <= '9') || c == '-'
}

pub open spec fn all_key_chars(k: Seq<char>) -> bool {
    forall|i: int| 0 <= i < k.len() ==> #[trigger] key_char(k[i])
}

pub open spec fn all_value_chars(v: Seq<char>) -> bool {
    forall|i: int| 0 <= i < v.len() ==> #[trigger] value_char(v[i])
}

/// The encoding of a concatenation is the concatenation of the encodings.
pub proof fn lemma_encode_concat(a: Seq<char>, b: Seq<char>)
    ensures
        encode_utf8(a + b) == encode_utf8(a) + encode_utf8(b),
    decreases a.len(),
{
    if a.len() == 0 {
        assert(a + b =~= b);
        assert(encode_utf8(a) =~= Seq::<u8>::empty());
        assert(encode_utf8(a) + encode_utf8(b) =~= encode_utf8(b));
    } else {
        assert((a + b).drop_first() =~= a.drop_first() + b);
        assert((a + b)[0] == a[0]);
        lemma_encode_concat(a.drop_first(), b);
        assert(encode_utf8(a + b) =~= encode_utf8(a) + encode_utf8(b));
    }
}

/// An ASCII character encodes as its own code.
pub proof fn lemma_encode_ascii_char(c: char)
    requires
        (c as u32) < 128,
    ensures
        encode_utf8(seq![c]) == seq![(c as u32) as u8],
{
    let u = c as u32;
    assert((u & 0x7F) as u8 == u as u8) by (bit_vector)
        requires
            u < 128,
    ;
    assert(seq![c].drop_first() =~= Seq::<char>::empty());
    assert(encode_utf8(seq![c]) =~= encode_scalar(u) + encode_utf8(Seq::<char>::empty()));
    assert(encode_utf8(seq![c]) =~= seq![(c as u32) as u8]);
}

/// No byte of the encoding of a character other than a line feed is a line feed.
proof fn lemma_scalar_no_lf(c: char)
    requires
        c != '\n',
    ensures
        forall|j: int| 0 <= j < encode_scalar(c as u32).len() ==> #[trigger] encode_scalar(c as u32)[j] != 10,
{
    let u = c as u32;
    vstd::utf8::char_is_scalar(c);
    vstd::utf8::char_u32_cast(c, u);
    assert(u != 10) by {
        if u == 10 {
            vstd::utf8::char_u32_cast('\n', 10);
        }
    }
    if u < 128 {
        assert((u & 0x7F) as u8 != 10u8) by (bit_vector)
            requires
                u < 128,
                u != 10,
        ;
    }
    assert(forall|x: u32| #![auto] (0xC0u8 | ((x >> 6) & 0x1F) as u8) != 10u8) by (bit_vector);
    assert(forall|x: u32| #![auto] (0xE0u8 | ((x >> 12) & 0x0F) as u8) != 10u8) by (bit_vector);
    assert(forall|x: u32| #![auto] (0xF0u8 | ((x >> 18) & 0x7) as u8) != 10u8) by (bit_vector);
    assert(forall|x: u32| #![auto] (0x80u8 | (x & 0x3F) as u8) != 10u8) by (bit_vector);
    assert(forall|x: u32| #![auto] (0x80u8 | ((x >> 6) & 0x3F) as u8) != 10u8) by (bit_vector);
    assert(forall|x: u32| #![auto] (0x80u8 | ((x >> 12) & 0x3F) as u8) != 10u8) by (bit_vector);
}

/// The encoding of a line holds no line feed.
pub proof fn lemma_encode_one_line(l: Seq<char>)
    requires
        one_line(l),
    ensures
        forall|j: int| 0 <= j < encode_utf8(l).len() ==> #[trigger] encode_utf8(l)[j] != 10,
    decreases l.len(),
{
    if l.len() > 0 {
        let t = l.drop_first();
        assert forall|i: int| 0 <= i < t.len() implies t[i] != '\n' by {
            assert(t[i] == l[i + 1]);
        }
        lemma_encode_one_line(t);
        lemma_scalar_no_lf(l[0]);
        let e0 = encode_scalar(l[0] as u32);
        assert forall|j: int| 0 <= j < encode_utf8(l).len() implies #[trigger] encode_utf8(l)[j] != 10 by {
            if j < e0.len() {
                assert(encode_utf8(l)[j] == e0[j]);
            } else {
                assert(encode_utf8(l)[j] == encode_utf8(t)[j - e0.len()]);
            }
        }
    }
}

/// The first `b` in `x`, `b`, `rest` is the one after `x` when `x` holds none.
pub proof fn lemma_first_of_after(x: Seq<u8>, b: u8, rest: Seq<u8>)
    requires
        forall|j: int| 0 <= j < x.len() ==> #[trigger] x[j] != b,
    ensures
        first_of(x + seq![b] + rest, b) == x.len(),
    decreases x.len(),
{
    let s = x + seq![b] + rest;
    if x.len() == 0 {
        assert(s[0] == b);
    } else {
        assert(s[0] == x[0]);
        let t = x.drop_first();
        assert(s.drop_first() =~= t + seq![b] + rest);
        assert forall|j: int| 0 <= j < t.len() implies #[trigger] t[j] != b by {
            assert(t[j] == x[j + 1]);
        }
        lemma_first_of_after(t, b, rest);
    }
}

/// A text written as lines reads back as the encodings of those lines.
pub proof fn lemma_lines_text(ls: Seq<Seq<char>>)
    requires
        forall|i: int| 0 <= i < ls.len() ==> one_line(#[trigger] ls[i]),
    ensures
        lines_of(encode_utf8(lines_text(ls))) == Seq::new(ls.len(), |i: int| encode_utf8(ls[i])),
    decreases ls.len(),
{
    reveal(lines_text);
    if ls.len() == 0 {
        assert(encode_utf8(lines_text(ls)) =~= Seq::<u8>::empty());
        assert(lines_of(encode_utf8(lines_text(ls))) =~= Seq::new(ls.len(), |i: int| encode_utf8(ls[i])));
    } else {
        let rest = ls.drop_first();
        assert forall|i: int| 0 <= i < rest.len() implies one_line(#[trigger] rest[i]) by {
            assert(rest[i] == ls[i + 1]);
        }
        lemma_lines_text(rest);
        let x = encode_utf8(ls[0]);
        let r = encode_utf8(lines_text(rest));
        lemma_encode_concat(ls[0] + seq!['\n'], lines_text(rest));
        lemma_encode_concat(ls[0], seq!['\n']);
        vstd::utf8::char_u32_cast('\n', 10);
        lemma_encode_ascii_char('\n');
        let s = encode_utf8(lines_text(ls));
        assert(s =~= x + seq![10u8] + r);
        assert(one_line(ls[0]));
        lemma_encode_one_line(ls[0]);
        lemma_first_of_after(x, 10, r);
        assert(s.take(x.len() as int) =~= x);
        assert(s.skip(x.len() as int + 1) =~= r);
        assert(lines_of(s) =~= Seq::new(ls.len(), |i: int| encode_utf8(ls[i])));
    }
}

/// The number of trailing whitespace bytes is at most the length, and the whole string
/// only when it is all whitespace.
proof fn lemma_trail_bound(s: Seq<u8>)
    ensures
        0 <= trail(s) <= s.len(),
        trail(s) == s.len() && s.len() > 0 ==> is_space(s[0]),
    decreases s.len(),
{
    if s.len() > 0 && is_space(s.last()) {
        lemma_trail_bound(s.drop_last());
        if s.len() > 1 {
            assert(s.drop_last()[0] == s[0]);
        }
    }
}

/// A string whose first and last bytes are not whitespace is its own trimmed form.
proof fn lemma_trim_solid(s: Seq<u8>)
    requires
        s.len() > 0,
        !is_space(s[0]),
        !is_space(s.last()),
    ensures
        trim(s) == s,
{
    assert(lead(s) == 0);
    assert(trail(s) == 0);
    assert(s.subrange(0, s.len() as int) =~= s);
}

/// A line starting with `#` is a comment.
pub proof fn lemma_comment_entry(l: Seq<char>)
    requires
        l.len() > 0,
        l[0] == '#',
    ensures
        line_entry(encode_utf8(l)) is None,
{
    let b = encode_utf8(l);
    vstd::utf8::char_u32_cast('#', 35);
    lemma_encode_ascii_char('#');
    assert(l =~= seq!['#'] + l.drop_first());
    lemma_encode_concat(seq!['#'], l.drop_first());
    assert(b[0] == 35);
    assert(lead(b) == 0);
    lemma_trail_bound(b);
    let t = trim(b);
    assert(t[0] == 35);
}

/// The encoding of ASCII characters, byte by byte.
pub proof fn lemma_encode_ascii(s: Seq<char>)
    requires
        forall|i: int| 0 <= i < s.len() ==> (#[trigger] s[i] as u32) < 128,
    ensures
        encode_utf8(s).len() == s.len(),
        forall|i: int| 0 <= i < s.len() ==> #[trigger] encode_utf8(s)[i] == (s[i] as u32) as u8,
{
    assert(is_ascii_chars(s)) by {
        assert forall|i: int| 0 <= i < s.len() implies '\0' <= #[trigger] s[i] <= '\u{7f}' by {
            vstd::utf8::char_u32_cast(s[i], s[i] as u32);
        }
    }
    vstd::utf8::is_ascii_chars_encode_utf8(s);
    assert forall|i: int| 0 <= i < s.len() implies #[trigger] encode_utf8(s)[i] == (s[i] as u32) as u8 by {
        let u = s[i] as u32;
        assert(s[i] as u8 == u as u8);
    }
}

/// A `key=value` line reads back as its key and value.
pub proof fn lemma_kv_entry(k: Seq<char>, v: Seq<char>)
    requires
        k.len() > 0,
        v.len() > 0,
        all_key_chars(k),
        all_value_chars(v),
    ensures
        line_entry(encode_utf8(kv_line(k, v))) == Some(Some((encode_utf8(k), encode_utf8(v)))),
{
    let l = kv_line(k, v);
    assert forall|i: int| 0 <= i < k.len() implies (#[trigger] k[i] as u32) < 128 by {
        assert(key_char(k[i]));
    }
    assert forall|i: int| 0 <= i < v.len() implies (#[trigger] v[i] as u32) < 128 by {
        assert(value_char(v[i]));
    }
    lemma_encode_ascii(k);
    lemma_encode_ascii(v);
    vstd::utf8::char_u32_cast('=', 61);
    lemma_encode_ascii_char('=');
    lemma_encode_concat(k + seq!['='], v);
    lemma_encode_concat(k, seq!['=']);
    let ek = encode_utf8(k);
    let ev = encode_utf8(v);
    let b = encode_utf8(l);
    assert(b =~= ek + seq![61u8] + ev);
    assert(key_char(k[0]));
    assert(value_char(v[v.len() - 1]));
    assert(!is_space(b[0]));
    assert(b.last() == ev[ev.len() - 1]);
    assert(!is_space(b.last()));
    lemma_trim_solid(b);
    assert forall|j: int| 0 <= j < ek.len() implies #[trigger] ek[j] != 61 by {
        assert(key_char(k[j]));
    }
    lemma_first_of_after(ek, 61, ev);
    assert(b.take(ek.len() as int) =~= ek);
    assert(b.skip(ek.len() as int + 1) =~= ev);
    assert(key_char(k[k.len() - 1]));
    assert(value_char(v[0]));
    lemma_trim_solid(ek);
    lemma_trim_solid(ev);
}

/// The decimal text of a number is made of digits.
pub proof fn lemma_decimal_digits(n: nat)
    ensures
        decimal(n).len() > 0,
        forall|i: int| 0 <= i < decimal(n).len() ==> '0' <= #[trigger] decimal(n)[i] <= '9',
    decreases n,
{
    if n >= 10 {
        lemma_decimal_digits(n / 10);
    }
}

/// The decimal text of a number reads back as that number.
pub proof fn lemma_parse_decimal(n: nat)
    ensures
        parse_uint(encode_utf8(decimal(n))) == Some(n),
        all_value_chars(decimal(n)),
{
    lemma_decimal_digits(n);
    lemma_digits_value_decimal(n);
    let d = decimal(n);
    assert forall|i: int| 0 <= i < d.len() implies (#[trigger] d[i] as u32) < 128 by {
        assert('0' <= d[i] <= '9');
    }
    lemma_encode_ascii(d);
    let e = encode_utf8(d);
    assert(all_digits(e)) by {
        assert forall|i: int| 0 <= i < e.len() implies 48 <= #[trigger] e[i] <= 57 by {
            assert('0' <= d[i] <= '9');
        }
    }
    assert(e[0] != 43) by {
        assert('0' <= d[0] <= '9');
    }
    assert forall|i: int| 0 <= i < d.len() implies #[trigger] value_char(d[i]) by {
        assert('0' <= d[i] <= '9');
    }
}

proof fn lemma_digit_char(d: nat)
    requires
        d < 10,
    ensures
        (digit_char(d) as u32) as u8 == d + 48,
        '0' <= digit_char(d) <= '9',
{
}

proof fn lemma_digits_value_decimal(n: nat)
    ensures
        digits_value(encode_utf8(decimal(n))) == n,
    decreases n,
{
    lemma_decimal_digits(n);
    if n < 10 {
        lemma_digit_char(n);
        lemma_encode_ascii_char(digit_char(n));
        assert(decimal(n) =~= seq![digit_char(n)]);
        let e = encode_utf8(decimal(n));
        assert(e =~= seq![(n + 48) as u8]);
        assert(e.drop_last() =~= Seq::<u8>::empty());
        assert(digits_value(e.drop_last()) == 0);
        assert(digits_value(e) == n);
    } else {
        lemma_digits_value_decimal(n / 10);
        lemma_digit_char(n % 10);
        lemma_encode_ascii_char(digit_char(n % 10));
        lemma_encode_concat(decimal(n / 10), seq![digit_char(n % 10)]);
        assert(decimal(n) =~= decimal(n / 10) + seq![digit_char(n % 10)]);
        let e = encode_utf8(decimal(n));
        assert(e.drop_last() =~= encode_utf8(decimal(n / 10)));
        assert(e.last() == n % 10 + 48);
        assert(digits_value(e) == ((n / 10) * 10 + (n % 10)) as nat);
    }
}

/// The signed decimal text of a number reads back as that number.
pub proof fn lemma_parse_signed_decimal(v: int)
    ensures
        parse_int(encode_utf8(signed_decimal(v))) == Some(v),
        all_value_chars(signed_decimal(v)),
        signed_decimal(v).len() > 0,
{
    if v < 0 {
        let m = (-v) as nat;
        lemma_parse_decimal(m);
        lemma_decimal_digits(m);
        vstd::utf8::char_u32_cast('-', 45);
        lemma_encode_ascii_char('-');
        lemma_encode_concat(seq!['-'], decimal(m));
        let e = encode_utf8(signed_decimal(v));
        assert(e.drop_first() =~= encode_utf8(decimal(m)));
        let d = encode_utf8(decimal(m));
        let dn = decimal(m);
        assert(dn.len() > 0);
        assert forall|i: int| 0 <= i < dn.len() implies (#[trigger] dn[i] as u32) < 128 by {
            assert('0' <= dn[i] <= '9');
        }
        lemma_encode_ascii(dn);
        assert(d.len() > 0);
        assert(all_digits(d)) by {
            assert forall|i: int| 0 <= i < d.len() implies 48 <= #[trigger] d[i] <= 57 by {
                assert('0' <= dn[i] <= '9');
            }
        }
        let s = signed_decimal(v);
        assert forall|i: int| 0 <= i < s.len() implies #[trigger] value_char(s[i]) by {
            if i > 0 {
                assert(s[i] == dn[i - 1]);
                assert(value_char(dn[i - 1]));
            }
        }
    } else {
        lemma_parse_decimal(v as nat);
        lemma_decimal_digits(v as nat);
        let dn = decimal(v as nat);
        assert forall|i: int| 0 <= i < dn.len() implies (#[trigger] dn[i] as u32) < 128 by {
            assert('0' <= dn[i] <= '9');
        }
        lemma_encode_ascii(dn);
        assert(encode_utf8(dn)[0] != 45) by {
            assert('0' <= dn[0] <= '9');
        }
    }
}

/// Different texts have different encodings.
pub proof fn lemma_encode_injective(a: Seq<char>, b: Seq<char>)
    ensures
        (encode_utf8(a) == encode_utf8(b)) == (a == b),
{
    vstd::utf8::encode_utf8_decode_utf8(a);
    vstd::utf8::encode_utf8_decode_utf8(b);
}

/// A written value is already in lower case.
pub proof fn lemma_lower_word(w: Seq<char>)
    requires
        all_value_chars(w),
    ensures
        lower_seq(encode_utf8(w)) == encode_utf8(w),
{
    assert forall|i: int| 0 <= i < w.len() implies (#[trigger] w[i] as u32) < 128 by {
        assert(value_char(w[i]));
    }
    lemma_encode_ascii(w);
    let e = encode_utf8(w);
    assert forall|i: int| 0 <= i < e.len() implies #[trigger] lower(e[i]) == e[i] by {
        assert(value_char(w[i]));
    }
    assert(lower_seq(e) =~= e);
}

/// Writing one more line appends it and a line feed.
pub proof fn lemma_lines_text_push(ls: Seq<Seq<char>>, l: Seq<char>)
    ensures
        lines_text(ls.push(l)) == lines_text(ls) + l + seq!['\n'],
    decreases ls.len(),
{
    reveal(lines_text);
    if ls.len() == 0 {
        assert(ls.push(l).drop_first() =~= Seq::<Seq<char>>::empty());
        assert(lines_text(Seq::<Seq<char>>::empty()) =~= Seq::<char>::empty());
        assert(ls.push(l)[0] == l);
        assert(lines_text(ls) =~= Seq::<char>::empty());
        assert(lines_text(ls.push(l)) =~= lines_text(ls) + l + seq!['\n']);
    } else {
        assert(ls.push(l).drop_first() =~= ls.drop_first().push(l));
        lemma_lines_text_push(ls.drop_first(), l);
        assert(lines_text(ls.push(l)) =~= lines_text(ls) + l + seq!['\n']);
    }
}

/// No lines make no text.
pub proof fn lemma_lines_text_empty()
    ensures
        lines_text(Seq::<Seq<char>>::empty()) == Seq::<char>::empty(),
{
    reveal(lines_text);
}

/// A `key=value` line holds no line feed.
pub proof fn lemma_kv_one_line(k: Seq<char>, v: Seq<char>)
    requires
        all_key_chars(k),
        all_value_chars(v),
    ensures
        one_line(kv_line(k, v)),
{
    let l = kv_line(k, v);
    assert forall|i: int| 0 <= i < l.len() implies l[i] != '\n' by {
        if i < k.len() {
            assert(key_char(k[i]));
        } else if i > k.len() {
            assert(value_char(v[i - k.len() - 1]));
        }
    }
}

} // verus!
