//! Cross-session persistence of the story day, so the story arc resumes where it left
//! off instead of restarting at day 1 on every launch. The file format is a few
//! `key=value` lines; reading and writing the file is the app's business.
use vstd::prelude::*;
use vstd::string::StringExecFns;
use vstd::string::StringSliceAdditionalSpecFns;
use vstd::utf8::encode_utf8;
use crate::host::text::{
    split_lines, parse_line, eq_bytes, parse_u64, parse_i32, push_decimal, push_signed, lines_of,
    line_entry, parse_uint, parse_int, decimal, signed_decimal, views,
};
use crate::host::line_format::{
    lines_text, kv_line, one_line, value_char, lemma_lines_text, lemma_comment_entry, lemma_kv_entry,
    lemma_parse_decimal, lemma_parse_signed_decimal,
};

verus! {

/// The persisted story progress.
#[derive(Debug, Clone, Copy, PartialEq, Eq, Structural)]
pub struct DayState {
    /// Current story day (1–11).
    pub current_day: u8,
    /// Day-of-year the day was last advanced (to detect calendar changes).
    pub stored_yday: i32,
}

/// A `u8` read from decimal text, if it is one.
pub open spec fn u8_of(v: Seq<u8>) -> Option<u8> {
    match parse_uint(v) {
        Some(n) => if n <= 255 { Some(n as u8) } else { None::<u8> },
        None => None::<u8>,
    }
}

/// An `i32` read from decimal text, if it is one.
pub open spec fn i32_of(v: Seq<u8>) -> Option<i32> {
    match parse_int(v) {
        Some(n) => if i32::MIN <= n <= i32::MAX { Some(n as i32) } else { None::<i32> },
        None => None::<i32>,
    }
}

/// What the first lines say: the last `current_day` read, the last `stored_yday`
/// read, and whether some line was malformed (not blank, not a comment, no `=`).
pub open spec fn day_fields(lines: Seq<Seq<u8>>) -> (Option<u8>, Option<i32>, bool)
    decreases lines.len(),
{
    if lines.len() == 0 {
        (None, None, false)
    } else {
        let (c, y, bad) = day_fields(lines.drop_last());
        match line_entry(lines.last()) {
            None => (c, y, bad),
            Some(None) => (c, y, true),
            Some(Some((k, v))) => if k == "current_day".spec_bytes() {
                (u8_of(v), y, bad)
            } else if k == "stored_yday".spec_bytes() {
                (c, i32_of(v), bad)
            } else {
                (c, y, bad)
            },
        }
    }
}

/// The progress a state file holds: both fields, and no malformed line.
pub open spec fn day_state_of(text: Seq<u8>) -> Option<DayState> {
    let (c, y, bad) = day_fields(lines_of(text));
    if !bad && c is Some && y is Some {
        Some(DayState { current_day: c->Some_0, stored_yday: y->Some_0 })
    } else {
        None
    }
}

/// The text of a state file: a comment line, then one `key=value` line per field.
pub open spec fn day_state_text(s: DayState) -> Seq<char> {
    lines_text(
        seq![
            "# Wilson Reborn — story progress (the 11-day arc)."@,
            kv_line("current_day"@, decimal(s.current_day as nat)),
            kv_line("stored_yday"@, signed_decimal(s.stored_yday as int)),
        ],
    )
}

impl DayState {
    /// Parse a state file: `key=value` lines (blank lines and `#` comments skipped);
    /// both keys are needed, and a line without `=` makes the file unreadable.
    pub fn parse(text: &str) -> (r: Option<DayState>)
        ensures
            r == day_state_of(text.spec_bytes()),
    {
        let lines = split_lines(text.as_bytes());
        let ghost all = views(lines@);
        let mut current_day: Option<u8> = None;
        let mut stored_yday: Option<i32> = None;
        let mut bad = false;
        let mut i: usize = 0;
        while i < lines.len()
            invariant
                i <= lines@.len(),
                all == views(lines@),
                (current_day, stored_yday, bad) == day_fields(all.take(i as int)),
            decreases lines@.len() - i,
        {
            proof {
                assert(all.take(i + 1).drop_last() =~= all.take(i as int));
                assert(all.take(i + 1).last() == lines@[i as int]@);
            }
            match parse_line(lines[i]) {
                None => {},
                Some(None) => {
                    bad = true;
                },
                Some(Some((k, v))) => {
                    if eq_bytes(k, "current_day".as_bytes()) {
                        current_day = match parse_u64(v) {
                            Some(n) => if n <= 255 { Some(n as u8) } else { None },
                            None => None,
                        };
                    } else if eq_bytes(k, "stored_yday".as_bytes()) {
                        stored_yday = parse_i32(v);
                    }
                },
            }
            i = i + 1;
        }
        proof {
            assert(all.take(lines@.len() as int) =~= all);
        }
        if bad {
            return None;
        }
        match (current_day, stored_yday) {
            (Some(c), Some(y)) => Some(DayState { current_day: c, stored_yday: y }),
            _ => None,
        }
    }

    /// The text of the state file.
    pub fn serialize(&self) -> (s: String)
        ensures
            s@ == day_state_text(*self),
    {
        let mut s = String::from_str("# Wilson Reborn — story progress (the 11-day arc).");
        s.append("\n");
        s.append("current_day");
        s.append("=");
        push_decimal(&mut s, self.current_day as u64);
        s.append("\n");
        s.append("stored_yday");
        s.append("=");
        push_signed(&mut s, self.stored_yday as i64);
        s.append("\n");
        proof {
            reveal_strlit("\n");
            reveal_strlit("=");
            reveal_with_fuel(lines_text, 4);
            let ls = seq![
                "# Wilson Reborn — story progress (the 11-day arc)."@,
                kv_line("current_day"@, decimal(self.current_day as nat)),
                kv_line("stored_yday"@, signed_decimal(self.stored_yday as int)),
            ];
            assert(ls.drop_first().drop_first().drop_first() =~= Seq::<Seq<char>>::empty());
            assert(s@ =~= day_state_text(*self));
        }
        s
    }
}

/// Writing the story progress and reading it back gives the same progress.
pub proof fn lemma_day_state_round_trip(s: DayState)
    ensures
        day_state_of(encode_utf8(day_state_text(s))) == Some(s),
{
    let c0 = "# Wilson Reborn — story progress (the 11-day arc)."@;
    let kc = "current_day"@;
    let ky = "stored_yday"@;
    let d = decimal(s.current_day as nat);
    let y = signed_decimal(s.stored_yday as int);
    let l1 = kv_line(kc, d);
    let l2 = kv_line(ky, y);
    let ls = seq![c0, l1, l2];
    reveal_strlit("# Wilson Reborn — story progress (the 11-day arc).");
    reveal_strlit("current_day");
    reveal_strlit("stored_yday");
    lemma_parse_decimal(s.current_day as nat);
    lemma_parse_signed_decimal(s.stored_yday as int);
    crate::host::line_format::lemma_decimal_digits(s.current_day as nat);
    assert(one_line(c0));
    assert(one_line(l1)) by {
        assert forall|i: int| 0 <= i < l1.len() implies l1[i] != '\n' by {
            if i > kc.len() {
                assert(value_char(d[i - kc.len() - 1]));
            }
        }
    }
    assert(one_line(l2)) by {
        assert forall|i: int| 0 <= i < l2.len() implies l2[i] != '\n' by {
            if i > ky.len() {
                assert(value_char(y[i - ky.len() - 1]));
            }
        }
    }
    assert forall|i: int| 0 <= i < ls.len() implies one_line(#[trigger] ls[i]) by {}
    lemma_lines_text(ls);
    let lines = lines_of(encode_utf8(day_state_text(s)));
    assert(lines =~= seq![encode_utf8(c0), encode_utf8(l1), encode_utf8(l2)]);
    lemma_comment_entry(c0);
    lemma_kv_entry(kc, d);
    lemma_kv_entry(ky, y);
    vstd::utf8::encode_utf8_decode_utf8(kc);
    vstd::utf8::encode_utf8_decode_utf8(ky);
    assert(encode_utf8(ky) != encode_utf8(kc)) by {
        assert(kc[0] != ky[0]);
    }
    let p0 = lines.drop_last().drop_last().drop_last();
    let p1 = lines.drop_last().drop_last();
    let p2 = lines.drop_last();
    assert(p0 =~= Seq::<Seq<u8>>::empty());
    assert(p1.last() == encode_utf8(c0));
    assert(p2.last() == encode_utf8(l1));
    assert(lines.last() == encode_utf8(l2));
    assert(p1.drop_last() == p0);
    assert(p2.drop_last() == p1);
    assert(day_fields(p0) == (None::<u8>, None::<i32>, false));
    assert(day_fields(p1) == (None::<u8>, None::<i32>, false));
    assert(day_fields(p2) == (Some(s.current_day), None::<i32>, false));
    assert(day_fields(lines) == (Some(s.current_day), Some(s.stored_yday), false));
}

} // verus!
