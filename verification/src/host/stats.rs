//! Lifetime statistics: how many times the screensaver has run, for how long in total, and
//! the highest story day reached. Kept as a small `key=value` text file; reading and
//! writing it is the app's business.
use vstd::prelude::*;
use vstd::string::StringExecFns;
use vstd::string::StringSliceAdditionalSpecFns;
use vstd::utf8::encode_utf8;
use crate::host::text::{
    split_lines, parse_line, eq_bytes, parse_u64, push_decimal, lines_of, line_entry, parse_uint,
    decimal, views,
};
use crate::host::line_format::{
    lines_text, kv_line, one_line, value_char, lemma_lines_text, lemma_comment_entry, lemma_kv_entry,
    lemma_parse_decimal, lemma_decimal_digits,
};

verus! {

/// Persisted lifetime counters.
#[derive(Clone, Copy, Debug, PartialEq, Eq, Structural)]
pub struct Stats {
    /// How many times the screensaver has been shown.
    pub sessions: u64,
    /// Total time shown, in seconds (across all sessions).
    pub total_secs: u64,
    /// Highest story day reached (1–11), `0` if never run.
    pub max_day: u8,
}

impl Default for Stats {
    fn default() -> (s: Self)
        ensures
            s == (Stats { sessions: 0, total_secs: 0, max_day: 0 }),
    {
        Stats { sessions: 0, total_secs: 0, max_day: 0 }
    }
}

/// A `u64` read from decimal text, if it is one.
pub open spec fn u64_of(v: Seq<u8>) -> Option<u64> {
    match parse_uint(v) {
        Some(n) => if n <= u64::MAX { Some(n as u64) } else { None::<u64> },
        None => None::<u64>,
    }
}

/// The counters after reading one `key=value` entry: a readable number replaces its
/// counter (`max_day` at most 11); anything else changes nothing.
pub open spec fn stats_entry(s: Stats, k: Seq<u8>, v: Seq<u8>) -> Stats {
    if k == "sessions".spec_bytes() {
        match u64_of(v) {
            Some(n) => Stats { sessions: n, ..s },
            None => s,
        }
    } else if k == "total_secs".spec_bytes() {
        match u64_of(v) {
            Some(n) => Stats { total_secs: n, ..s },
            None => s,
        }
    } else if k == "max_day".spec_bytes() {
        match parse_uint(v) {
            Some(n) => if n <= 255 { Stats { max_day: if n < 11 { n as u8 } else { 11 }, ..s } } else { s },
            None => s,
        }
    } else {
        s
    }
}

/// The counters read from the first lines of a statistics file.
pub open spec fn stats_of(lines: Seq<Seq<u8>>) -> Stats
    decreases lines.len(),
{
    if lines.len() == 0 {
        Stats { sessions: 0, total_secs: 0, max_day: 0 }
    } else {
        let s = stats_of(lines.drop_last());
        match line_entry(lines.last()) {
            Some(Some((k, v))) => stats_entry(s, k, v),
            _ => s,
        }
    }
}

/// The text of a statistics file: a comment line, then one `key=value` line per counter.
pub open spec fn stats_text(s: Stats) -> Seq<char> {
    lines_text(
        seq![
            "# Wilson Reborn — lifetime statistics."@,
            kv_line("sessions"@, decimal(s.sessions as nat)),
            kv_line("total_secs"@, decimal(s.total_secs as nat)),
            kv_line("max_day"@, decimal(s.max_day as nat)),
        ],
    )
}

/// `secs` as hours and minutes, minutes and seconds, or seconds alone.
pub open spec fn duration_text(secs: u64) -> Seq<char> {
    let h = secs / 3600;
    let m = (secs % 3600) / 60;
    let s = secs % 60;
    if h > 0 {
        decimal(h as nat) + "h "@ + decimal(m as nat) + "m"@
    } else if m > 0 {
        decimal(m as nat) + "m "@ + decimal(s as nat) + "s"@
    } else {
        decimal(s as nat) + "s"@
    }
}

/// Format a number of seconds as `"Hh Mm"` (or `"Mm Ss"` / `"Ss"` for short spans).
pub fn format_duration(secs: u64) -> (t: String)
    ensures
        t@ == duration_text(secs),
{
    let h = secs / 3600;
    let m = (secs % 3600) / 60;
    let s = secs % 60;
    let mut t = String::new();
    if h > 0 {
        push_decimal(&mut t, h);
        t.append("h ");
        push_decimal(&mut t, m);
        t.append("m");
    } else if m > 0 {
        push_decimal(&mut t, m);
        t.append("m ");
        push_decimal(&mut t, s);
        t.append("s");
    } else {
        push_decimal(&mut t, s);
        t.append("s");
    }
    assert(t@ =~= duration_text(secs));
    t
}

impl Stats {
    /// Raise `max_day` to `day` if it is higher and a story day (1–11).
    pub fn note_day(&mut self, day: u8)
        ensures
            final(self).sessions == old(self).sessions,
            final(self).total_secs == old(self).total_secs,
            final(self).max_day == if 1 <= day <= 11 && day > old(self).max_day {
                day
            } else {
                old(self).max_day
            },
    {
        if 1 <= day && day <= 11 && day > self.max_day {
            self.max_day = day;
        }
    }

    /// Parse a statistics file: `key=value` lines, anything unreadable ignored.
    pub fn parse(text: &str) -> (r: Stats)
        ensures
            r == stats_of(lines_of(text.spec_bytes())),
    {
        let lines = split_lines(text.as_bytes());
        let ghost all = views(lines@);
        let mut s = Stats::default();
        let mut i: usize = 0;
        while i < lines.len()
            invariant
                i <= lines@.len(),
                all == views(lines@),
                s == stats_of(all.take(i as int)),
            decreases lines@.len() - i,
        {
            proof {
                assert(all.take(i + 1).drop_last() =~= all.take(i as int));
                assert(all.take(i + 1).last() == lines@[i as int]@);
            }
            match parse_line(lines[i]) {
                Some(Some((k, v))) => {
                    if eq_bytes(k, "sessions".as_bytes()) {
                        match parse_u64(v) {
                            Some(n) => {
                                s.sessions = n;
                            },
                            None => {},
                        }
                    } else if eq_bytes(k, "total_secs".as_bytes()) {
                        match parse_u64(v) {
                            Some(n) => {
                                s.total_secs = n;
                            },
                            None => {},
                        }
                    } else if eq_bytes(k, "max_day".as_bytes()) {
                        match parse_u64(v) {
                            Some(n) => {
                                if n <= 255 {
                                    s.max_day = if n < 11 { n as u8 } else { 11 };
                                }
                            },
                            None => {},
                        }
                    }
                },
                _ => {},
            }
            i = i + 1;
        }
        proof {
            assert(all.take(lines@.len() as int) =~= all);
        }
        s
    }

    /// The text of the statistics file.
    pub fn serialize(&self) -> (t: String)
        ensures
            t@ == stats_text(*self),
    {
        let mut t = String::from_str("# Wilson Reborn — lifetime statistics.");
        t.append("\n");
        t.append("sessions");
        t.append("=");
        push_decimal(&mut t, self.sessions);
        t.append("\n");
        t.append("total_secs");
        t.append("=");
        push_decimal(&mut t, self.total_secs);
        t.append("\n");
        t.append("max_day");
        t.append("=");
        push_decimal(&mut t, self.max_day as u64);
        t.append("\n");
        proof {
            reveal_strlit("\n");
            reveal_strlit("=");
            reveal_with_fuel(lines_text, 5);
            let ls = seq![
                "# Wilson Reborn — lifetime statistics."@,
                kv_line("sessions"@, decimal(self.sessions as nat)),
                kv_line("total_secs"@, decimal(self.total_secs as nat)),
                kv_line("max_day"@, decimal(self.max_day as nat)),
            ];
            assert(ls.drop_first().drop_first().drop_first().drop_first() =~= Seq::<Seq<char>>::empty());
            assert(t@ =~= stats_text(*self));
        }
        t
    }

    /// A human-readable one-liner, e.g. `"3 session(s), 1h 5m total, reached day 7/11"`.
    pub fn summary(&self) -> (t: String)
        ensures
            t@ == decimal(self.sessions as nat) + " session(s), "@ + duration_text(self.total_secs)
                + " total, reached day "@ + decimal(self.max_day as nat) + "/11"@,
    {
        let mut t = String::new();
        push_decimal(&mut t, self.sessions);
        t.append(" session(s), ");
        let d = format_duration(self.total_secs);
        t.append(d.as_str());
        t.append(" total, reached day ");
        push_decimal(&mut t, self.max_day as u64);
        t.append("/11");
        t
    }
}

/// Writing the counters and reading them back gives the same counters, for any counters
/// whose highest day is a story day or 0.
pub proof fn lemma_stats_round_trip(s: Stats)
    requires
        s.max_day <= 11,
    ensures
        stats_of(lines_of(encode_utf8(stats_text(s)))) == s,
{
    let c0 = "# Wilson Reborn — lifetime statistics."@;
    let ks = "sessions"@;
    let kt = "total_secs"@;
    let km = "max_day"@;
    let ds = decimal(s.sessions as nat);
    let dt = decimal(s.total_secs as nat);
    let dm = decimal(s.max_day as nat);
    let l1 = kv_line(ks, ds);
    let l2 = kv_line(kt, dt);
    let l3 = kv_line(km, dm);
    let ls = seq![c0, l1, l2, l3];
    reveal_strlit("# Wilson Reborn — lifetime statistics.");
    reveal_strlit("sessions");
    reveal_strlit("total_secs");
    reveal_strlit("max_day");
    lemma_parse_decimal(s.sessions as nat);
    lemma_parse_decimal(s.total_secs as nat);
    lemma_parse_decimal(s.max_day as nat);
    lemma_decimal_digits(s.sessions as nat);
    lemma_decimal_digits(s.total_secs as nat);
    lemma_decimal_digits(s.max_day as nat);
    assert(one_line(c0));
    assert(one_line(l1)) by {
        assert forall|i: int| 0 <= i < l1.len() implies l1[i] != '\n' by {
            if i > ks.len() {
                assert(value_char(ds[i - ks.len() - 1]));
            }
        }
    }
    assert(one_line(l2)) by {
        assert forall|i: int| 0 <= i < l2.len() implies l2[i] != '\n' by {
            if i > kt.len() {
                assert(value_char(dt[i - kt.len() - 1]));
            }
        }
    }
    assert(one_line(l3)) by {
        assert forall|i: int| 0 <= i < l3.len() implies l3[i] != '\n' by {
            if i > km.len() {
                assert(value_char(dm[i - km.len() - 1]));
            }
        }
    }
    assert forall|i: int| 0 <= i < ls.len() implies one_line(#[trigger] ls[i]) by {}
    lemma_lines_text(ls);
    let lines = lines_of(encode_utf8(stats_text(s)));
    assert(lines =~= seq![encode_utf8(c0), encode_utf8(l1), encode_utf8(l2), encode_utf8(l3)]);
    lemma_comment_entry(c0);
    lemma_kv_entry(ks, ds);
    lemma_kv_entry(kt, dt);
    lemma_kv_entry(km, dm);
    vstd::utf8::encode_utf8_decode_utf8(ks);
    vstd::utf8::encode_utf8_decode_utf8(kt);
    vstd::utf8::encode_utf8_decode_utf8(km);
    assert(encode_utf8(kt) != encode_utf8(ks)) by {
        assert(kt[0] != ks[0]);
    }
    assert(encode_utf8(km) != encode_utf8(ks)) by {
        assert(km[0] != ks[0]);
    }
    assert(encode_utf8(km) != encode_utf8(kt)) by {
        assert(km[0] != kt[0]);
    }
    let p0 = lines.take(0);
    let p1 = lines.take(1);
    let p2 = lines.take(2);
    let p3 = lines.take(3);
    assert(p1.drop_last() =~= p0);
    assert(p2.drop_last() =~= p1);
    assert(p3.drop_last() =~= p2);
    assert(lines.drop_last() =~= p3);
    let z = Stats { sessions: 0, total_secs: 0, max_day: 0 };
    assert(stats_of(p0) == z);
    assert(stats_of(p1) == z);
    assert(stats_of(p2) == Stats { sessions: s.sessions, ..z });
    assert(stats_of(p3) == Stats { sessions: s.sessions, total_secs: s.total_secs, ..z });
    assert(stats_of(lines) == s);
}

} // verus!
