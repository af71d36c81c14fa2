//! The command-line verbs of the screensaver: the Windows `/s` `/c` `/p <hwnd>` actions,
//! the help flags, which key presses dismiss the screensaver, and when audio is silenced.
use vstd::prelude::*;

verus! {

/// What the screensaver was asked to do (from the Windows `/s` `/p` `/c` verbs).
#[derive(Debug, Clone, Copy, PartialEq, Eq, Structural)]
pub enum Action {
    /// Show the screensaver (default).
    Show,
    /// Print/show the configuration (`/c`).
    Configure,
    /// Render the small preview embedded in the parent window handle (`/p <hwnd>`).
    Preview(isize),
}

/// The named keys the dismiss rule distinguishes.
#[derive(Debug, Clone, Copy, PartialEq, Eq, Structural)]
pub enum NamedKey {
    Alt,
    AltGraph,
    Control,
    Shift,
    Super,
    Meta,
    Hyper,
    Symbol,
    Fn,
    FnLock,
    CapsLock,
    NumLock,
    ScrollLock,
    Escape,
    Space,
    Enter,
    Tab,
    Backspace,
    ArrowLeft,
    ArrowRight,
    ArrowUp,
    ArrowDown,
    /// Any other named key.
    Other,
}

/// A logical key of a keyboard event.
#[derive(Debug, Clone, Copy, PartialEq, Eq, Structural)]
pub enum Key {
    Named(NamedKey),
    /// A key that produces text.
    Character,
    /// A key the platform could not identify.
    Unidentified,
}

/// Lone modifier and lock keys.
pub open spec fn is_modifier(k: NamedKey) -> bool {
    match k {
        NamedKey::Alt | NamedKey::AltGraph | NamedKey::Control | NamedKey::Shift | NamedKey::Super
        | NamedKey::Meta | NamedKey::Hyper | NamedKey::Symbol | NamedKey::Fn | NamedKey::FnLock
        | NamedKey::CapsLock | NamedKey::NumLock | NamedKey::ScrollLock => true,
        _ => false,
    }
}

/// Whether a keyboard event should dismiss the screensaver: any real key press does, but
/// not key releases, not the synthetic events the OS delivers on focus changes, and not
/// lone modifier or lock keys (a fullscreen window gets a spurious `AltGraph` press when it
/// grabs focus).
pub fn key_dismisses(key: Key, pressed: bool, is_synthetic: bool) -> (r: bool)
    ensures
        r == (pressed && !is_synthetic && !(key matches Key::Named(k) && is_modifier(k))),
{
    if !pressed || is_synthetic {
        return false;
    }
    match key {
        Key::Named(k) => match k {
            NamedKey::Alt | NamedKey::AltGraph | NamedKey::Control | NamedKey::Shift
            | NamedKey::Super | NamedKey::Meta | NamedKey::Hyper | NamedKey::Symbol
            | NamedKey::Fn | NamedKey::FnLock | NamedKey::CapsLock | NamedKey::NumLock
            | NamedKey::ScrollLock => false,
            _ => true,
        },
        _ => true,
    }
}

/// Whether audio should be silenced: when muted by configuration, or in the Windows
/// preview pane (the little monitor in the settings must never play sound).
pub fn audio_muted(cfg_mute: bool, is_preview: bool) -> (r: bool)
    ensures
        r == (cfg_mute || is_preview),
{
    cfg_mute || is_preview
}

/// Unicode whitespace (the characters `str::trim` removes).
pub open spec fn is_white(c: char) -> bool {
    let u = c as u32;
    (9 <= u <= 13) || u == 32 || u == 0x85 || u == 0xA0 || u == 0x1680 || (0x2000 <= u <= 0x200A)
        || u == 0x2028 || u == 0x2029 || u == 0x202F || u == 0x205F || u == 0x3000
}

/// The number of leading whitespace characters.
pub open spec fn lead_white(s: Seq<char>) -> int
    decreases s.len(),
{
    if s.len() > 0 && is_white(s[0]) {
        1 + lead_white(s.drop_first())
    } else {
        0
    }
}

/// The number of trailing whitespace characters.
pub open spec fn trail_white(s: Seq<char>) -> int
    decreases s.len(),
{
    if s.len() > 0 && is_white(s.last()) {
        1 + trail_white(s.drop_last())
    } else {
        0
    }
}

/// `s` without leading and trailing whitespace.
pub open spec fn trim_white(s: Seq<char>) -> Seq<char> {
    if lead_white(s) >= s.len() {
        Seq::empty()
    } else {
        s.subrange(lead_white(s), s.len() - trail_white(s))
    }
}

/// The value of digit `c` in base `radix` (10 or 16, either case), or -1.
pub open spec fn digit_of(c: char, radix: int) -> int {
    let u = c as u32;
    if 48 <= u <= 57 {
        u - 48
    } else if radix == 16 && 97 <= u <= 102 {
        u - 87
    } else if radix == 16 && 65 <= u <= 70 {
        u - 55
    } else {
        -1
    }
}

/// Whether every character of `d` is a digit in base `radix`.
pub open spec fn all_digits_in(d: Seq<char>, radix: int) -> bool {
    forall|i: int| 0 <= i < d.len() ==> #[trigger] digit_of(d[i], radix) >= 0
}

/// The value of the digit string `d` in base `radix`.
pub open spec fn digits_in(d: Seq<char>, radix: int) -> int
    decreases d.len(),
{
    if d.len() == 0 {
        0
    } else {
        digits_in(d.drop_last(), radix) * radix + digit_of(d.last(), radix)
    }
}

/// The signed number written in `d` in base `radix` (an optional `+` or `-`, then at least
/// one digit), as `isize::from_str_radix` reads it, when it fits in an `isize`.
pub open spec fn isize_in(d: Seq<char>, radix: int) -> Option<isize> {
    let neg = d.len() > 0 && d[0] == '-';
    let body = if d.len() > 0 && (d[0] == '-' || d[0] == '+') {
        d.drop_first()
    } else {
        d
    };
    let v = if neg {
        -digits_in(body, radix)
    } else {
        digits_in(body, radix)
    };
    if body.len() > 0 && all_digits_in(body, radix) && isize::MIN <= v <= isize::MAX {
        Some(v as isize)
    } else {
        None
    }
}

/// A window handle as Windows passes it: decimal, or hexadecimal after `0x`/`0X`,
/// surrounded by optional whitespace.
pub open spec fn hwnd_of(s: Seq<char>) -> Option<isize> {
    let t = trim_white(s);
    if t.len() >= 2 && t[0] == '0' && (t[1] == 'x' || t[1] == 'X') {
        isize_in(t.subrange(2, t.len() as int), 16)
    } else {
        isize_in(t, 10)
    }
}

fn is_white_char(c: char) -> (r: bool)
    ensures
        r == is_white(c),
{
    let u = c as u32;
    (9 <= u && u <= 13) || u == 32 || u == 0x85 || u == 0xA0 || u == 0x1680 || (0x2000 <= u && u
        <= 0x200A) || u == 0x2028 || u == 0x2029 || u == 0x202F || u == 0x205F || u == 0x3000
}

fn digit_value(c: char, radix: u32) -> (d: i32)
    requires
        radix == 10 || radix == 16,
    ensures
        d == digit_of(c, radix as int),
{
    let u = c as u32;
    if 48 <= u && u <= 57 {
        (u - 48) as i32
    } else if radix == 16 && 97 <= u && u <= 102 {
        (u - 87) as i32
    } else if radix == 16 && 65 <= u && u <= 70 {
        (u - 55) as i32
    } else {
        -1
    }
}

/// The characters of `s`.
pub fn chars_of(s: &str) -> (v: Vec<char>)
    ensures
        v@ == s@,
{
    let mut v: Vec<char> = Vec::new();
    for c in it: s.chars()
        invariant
            it.seq() == s@,
            v@ == s@.take(it.index() as int),
    {
        proof {
            assert(s@.take(it.index() + 1) =~= s@.take(it.index() as int).push(c));
        }
        v.push(c);
    }
    proof {
        assert(s@.take(s@.len() as int) =~= s@);
    }
    v
}

proof fn lemma_lead_white(s: Seq<char>, k: int)
    requires
        0 <= k <= s.len(),
        forall|j: int| 0 <= j < k ==> #[trigger] is_white(s[j]),
        k == s.len() || !is_white(s[k]),
    ensures
        lead_white(s) == k,
    decreases k,
{
    if k > 0 {
        assert forall|j: int| 0 <= j < k - 1 implies #[trigger] is_white(s.drop_first()[j]) by {
            assert(s.drop_first()[j] == s[j + 1]);
        }
        if k < s.len() {
            assert(s.drop_first()[k - 1] == s[k]);
        }
        lemma_lead_white(s.drop_first(), k - 1);
    }
}

proof fn lemma_trail_white(s: Seq<char>, k: int)
    requires
        0 <= k <= s.len(),
        forall|j: int| s.len() - k <= j < s.len() ==> #[trigger] is_white(s[j]),
        k == s.len() || !is_white(s[s.len() - k - 1]),
    ensures
        trail_white(s) == k,
    decreases k,
{
    if k > 0 {
        let t = s.drop_last();
        assert forall|j: int| t.len() - (k - 1) <= j < t.len() implies #[trigger] is_white(t[j]) by {
            assert(t[j] == s[j]);
        }
        if k < s.len() {
            assert(t[t.len() - (k - 1) - 1] == s[s.len() - k - 1]);
        }
        lemma_trail_white(t, k - 1);
    }
}

proof fn lemma_digits_push(d: Seq<char>, k: int, radix: int)
    requires
        0 <= k < d.len(),
    ensures
        digits_in(d.take(k + 1), radix) == digits_in(d.take(k), radix) * radix + digit_of(d[k], radix),
{
    assert(d.take(k + 1).drop_last() =~= d.take(k));
}

/// The number in `s[from..to]` in base `radix`, with an optional sign; `None` unless it is
/// one and fits in an `isize`.
fn parse_isize(s: &Vec<char>, from: usize, to: usize, radix: u32) -> (r: Option<isize>)
    requires
        from <= to <= s@.len(),
        radix == 10 || radix == 16,
    ensures
        r == isize_in(s@.subrange(from as int, to as int), radix as int),
{
    let ghost d = s@.subrange(from as int, to as int);
    let mut start = from;
    let mut neg = false;
    if from < to && (s[from] == '-' || s[from] == '+') {
        neg = s[from] == '-';
        start = from + 1;
    }
    let ghost body = s@.subrange(start as int, to as int);
    proof {
        if from < to && (d[0] == '-' || d[0] == '+') {
            assert(body =~= d.drop_first());
        } else {
            assert(body =~= d);
        }
    }
    if start == to {
        proof {
            assert(body.len() == 0);
        }
        return None;
    }
    let limit: u128 = 0x8000_0000_0000_0000;
    let mut mag: u128 = 0;
    let mut over = false;
    let mut i = start;
    while i < to
        invariant
            start <= i <= to <= s@.len(),
            body == s@.subrange(start as int, to as int),
            d == s@.subrange(from as int, to as int),
            neg == (d.len() > 0 && d[0] == '-'),
            body == (if d.len() > 0 && (d[0] == '-' || d[0] == '+') {
                d.drop_first()
            } else {
                d
            }),
            radix == 10 || radix == 16,
            forall|j: int| 0 <= j < i - start ==> #[trigger] digit_of(body[j], radix as int) >= 0,
            !over ==> mag == digits_in(body.take(i - start), radix as int) && mag <= limit,
            over ==> digits_in(body.take(i - start), radix as int) > limit,
            limit == 0x8000_0000_0000_0000u128,
        decreases to - i,
    {
        let dv = digit_value(s[i], radix);
        if dv < 0 {
            proof {
                assert(body[i - start] == s@[i as int]);
                assert(!all_digits_in(body, radix as int));
            }
            return None;
        }
        proof {
            assert(body[i - start] == s@[i as int]);
            lemma_digits_push(body, i - start, radix as int);
            let prev = digits_in(body.take(i - start), radix as int);
            assert(prev >= 0) by {
                lemma_digits_nonneg(body.take(i - start), radix as int);
            }
            assert(prev * radix + dv >= prev) by (nonlinear_arith)
                requires
                    prev >= 0,
                    radix >= 10,
                    dv >= 0,
            ;
        }
        if !over {
            let next = mag * (radix as u128) + dv as u128;
            if next > limit {
                over = true;
            } else {
                mag = next;
            }
        }
        i = i + 1;
    }
    proof {
        assert(body.take(to - start) =~= body);
        assert(all_digits_in(body, radix as int));
    }
    if over {
        return None;
    }
    if neg {
        if mag <= isize::MAX as u128 {
            Some(-(mag as isize))
        } else if mag == isize::MAX as u128 + 1 {
            Some(isize::MIN)
        } else {
            None
        }
    } else {
        if mag <= isize::MAX as u128 {
            Some(mag as isize)
        } else {
            None
        }
    }
}

proof fn lemma_digits_nonneg(d: Seq<char>, radix: int)
    requires
        radix >= 10,
        forall|i: int| 0 <= i < d.len() ==> #[trigger] digit_of(d[i], radix) >= 0,
    ensures
        digits_in(d, radix) >= 0,
    decreases d.len(),
{
    if d.len() > 0 {
        let t = d.drop_last();
        assert forall|i: int| 0 <= i < t.len() implies #[trigger] digit_of(t[i], radix) >= 0 by {
            assert(t[i] == d[i]);
        }
        lemma_digits_nonneg(t, radix);
        let p = digits_in(t, radix);
        assert(digit_of(d[d.len() - 1], radix) >= 0);
        assert(p * radix >= 0) by (nonlinear_arith)
            requires
                p >= 0,
                radix >= 10,
        ;
    }
}

/// The window handle written in `s[from..]` (see [`hwnd_of`]).
fn hwnd_in(s: &Vec<char>, from: usize) -> (r: Option<isize>)
    requires
        from <= s@.len(),
    ensures
        r == hwnd_of(s@.subrange(from as int, s@.len() as int)),
{
    let ghost t0 = s@.subrange(from as int, s@.len() as int);
    let n = s.len();
    let mut a = from;
    while a < n && is_white_char(s[a])
        invariant
            from <= a <= n,
            n == s@.len(),
            forall|j: int| from <= j < a ==> #[trigger] is_white(s@[j]),
        decreases n - a,
    {
        a = a + 1;
    }
    proof {
        assert forall|j: int| 0 <= j < a - from implies #[trigger] is_white(t0[j]) by {
            assert(t0[j] == s@[from + j]);
        }
        if a < n {
            assert(t0[a - from] == s@[a as int]);
        }
        lemma_lead_white(t0, a - from);
    }
    let mut b = n;
    while b > a && is_white_char(s[b - 1])
        invariant
            from <= a <= b <= n,
            n == s@.len(),
            forall|j: int| b <= j < n ==> #[trigger] is_white(s@[j]),
        decreases b,
    {
        b = b - 1;
    }
    proof {
        if a < n {
            assert forall|j: int| t0.len() - (n - b) <= j < t0.len() implies #[trigger] is_white(t0[j]) by {
                assert(t0[j] == s@[from + j]);
            }
            if b > a {
                assert(t0[t0.len() - (n - b) - 1] == s@[b - 1]);
            } else {
                assert(!is_white(t0[a - from]));
            }
            lemma_trail_white(t0, n - b);
            assert(trim_white(t0) =~= s@.subrange(a as int, b as int));
        } else {
            assert(trim_white(t0) =~= s@.subrange(a as int, b as int));
        }
    }
    let ghost t = s@.subrange(a as int, b as int);
    if b - a >= 2 && s[a] == '0' && (s[a + 1] == 'x' || s[a + 1] == 'X') {
        proof {
            assert(t.subrange(2, t.len() as int) =~= s@.subrange(a + 2, b as int));
        }
        parse_isize(s, a + 2, b, 16)
    } else {
        parse_isize(s, a, b, 10)
    }
}

/// Parse a window handle (decimal, or `0x`-prefixed hex), as Windows passes it.
pub fn parse_hwnd(s: &str) -> (r: Option<isize>)
    ensures
        r == hwnd_of(s@),
{
    let v = chars_of(s);
    proof {
        assert(v@.subrange(0, v@.len() as int) =~= v@);
    }
    hwnd_in(&v, 0)
}

/// The code of a character in ASCII lower case.
pub open spec fn lower_code(c: char) -> u32 {
    if 65 <= (c as u32) <= 90 {
        ((c as u32) + 32) as u32
    } else {
        c as u32
    }
}

/// The verb of an argument: `/x…` or `-x…` gives the code of the lower-cased letter `x`
/// and the text after it.
pub open spec fn verb_of(a: Seq<char>) -> Option<(u32, Seq<char>)> {
    if a.len() >= 2 && (a[0] == '/' || a[0] == '-') {
        Some((lower_code(a[1]), a.subrange(2, a.len() as int)))
    } else {
        None
    }
}

/// The handle of a preview verb whose text after the letter is `rest`: after a colon, or
/// else the next argument, or else 0.
pub open spec fn preview_hwnd(rest: Seq<char>, args: Seq<Seq<char>>, i: int) -> isize {
    let after_colon = if rest.len() > 0 {
        hwnd_of(rest.drop_first())
    } else {
        None
    };
    match after_colon {
        Some(h) => h,
        None => if i + 1 < args.len() {
            match hwnd_of(args[i + 1]) {
                Some(h) => h,
                None => 0,
            }
        } else {
            0
        },
    }
}

/// The action named by the first verb among `args[i..]` whose letter is `c`, `s` or `p`
/// and is followed by nothing or by a colon; `Show` when there is none.
pub open spec fn action_from(args: Seq<Seq<char>>, i: int) -> Action
    decreases args.len() - i,
{
    if i < 0 || i >= args.len() {
        Action::Show
    } else {
        match verb_of(args[i]) {
            Some((v, rest)) if (rest.len() == 0 || rest[0] == ':') && (v == 'c' as u32 || v == 's' as u32
                || v == 'p' as u32) => if v == 'c' as u32 {
                Action::Configure
            } else if v == 's' as u32 {
                Action::Show
            } else {
                Action::Preview(preview_hwnd(rest, args, i))
            },
            _ => action_from(args, i + 1),
        }
    }
}

/// The texts of the arguments.
pub open spec fn texts_of(args: Seq<String>) -> Seq<Seq<char>> {
    Seq::new(args.len(), |i: int| args[i]@)
}

/// Detect the screensaver action in `args` (after the program name). Verbs may use `/`
/// or `-`, be upper or lower case, and carry the preview window handle after a colon
/// (`/p:1234`) or as the next argument (`/p 1234`).
pub fn screensaver_action(args: &[String]) -> (r: Action)
    ensures
        r == action_from(texts_of(args@), 1),
{
    let ghost all = texts_of(args@);
    let mut i: usize = 1;
    while i < args.len()
        invariant
            1 <= i,
            all == texts_of(args@),
            action_from(all, i as int) == action_from(all, 1),
        decreases args@.len() - i,
    {
        let a = chars_of(args[i].as_str());
        proof {
            assert(a@ == all[i as int]);
        }
        if a.len() >= 2 && (a[0] == '/' || a[0] == '-') {
            let c = a[1];
            let is_c = c == 'c' || c == 'C';
            let is_s = c == 's' || c == 'S';
            let is_p = c == 'p' || c == 'P';
            let clean = a.len() == 2 || a[2] == ':';
            proof {
                let rest = a@.subrange(2, a@.len() as int);
                assert(verb_of(a@) == Some((lower_code(c), rest)));
                vstd::utf8::char_u32_cast(c, c as u32);
                assert(is_c == (lower_code(c) == 'c' as u32));
                assert(is_s == (lower_code(c) == 's' as u32));
                assert(is_p == (lower_code(c) == 'p' as u32));
                assert(clean == (rest.len() == 0 || rest[0] == ':'));
            }
            if clean && is_c {
                return Action::Configure;
            }
            if clean && is_s {
                return Action::Show;
            }
            if clean && is_p {
                let ghost rest = a@.subrange(2, a@.len() as int);
                let from_colon = if a.len() > 2 {
                    proof {
                        assert(rest.drop_first() =~= a@.subrange(3, a@.len() as int));
                    }
                    hwnd_in(&a, 3)
                } else {
                    None
                };
                let hwnd = match from_colon {
                    Some(h) => h,
                    None => {
                        if i + 1 < args.len() {
                            match parse_hwnd(args[i + 1].as_str()) {
                                Some(h) => h,
                                None => 0,
                            }
                        } else {
                            0
                        }
                    },
                };
                return Action::Preview(hwnd);
            }
        }
        i = i + 1;
    }
    Action::Show
}

/// The character codes of `s`.
pub open spec fn codes(s: Seq<char>) -> Seq<u32> {
    Seq::new(s.len(), |i: int| s[i] as u32)
}

/// The help flags (as character codes, in ASCII lower case).
pub open spec fn is_help_word(s: Seq<u32>) -> bool {
    s == codes("-h"@) || s == codes("-help"@) || s == codes("--help"@) || s == codes("help"@) || s
        == codes("/?"@) || s == codes("/h"@) || s == codes("/help"@)
}

/// The character codes of `s` in ASCII lower case.
pub open spec fn lower_codes(s: Seq<char>) -> Seq<u32> {
    Seq::new(s.len(), |i: int| lower_code(s[i]))
}

/// Whether `a`, in ASCII lower case, equals `word` (itself lower case).
fn eq_lower_chars(a: &Vec<char>, word: &str) -> (r: bool)
    ensures
        r == (lower_codes(a@) == codes(word@)),
{
    let w = chars_of(word);
    if a.len() != w.len() {
        proof {
            assert(lower_codes(a@).len() != codes(word@).len());
        }
        return false;
    }
    let mut i: usize = 0;
    while i < a.len()
        invariant
            i <= a@.len(),
            a@.len() == w@.len(),
            w@ == word@,
            forall|j: int| 0 <= j < i ==> lower_code(a@[j]) == w@[j] as u32,
        decreases a@.len() - i,
    {
        let c = a[i];
        let u = c as u32;
        let wc = w[i];
        let l = if 65 <= u && u <= 90 {
            u + 32
        } else {
            u
        };
        if l != wc as u32 {
            proof {
                assert(lower_codes(a@)[i as int] != codes(word@)[i as int]);
            }
            return false;
        }
        i = i + 1;
    }
    proof {
        assert(lower_codes(a@) =~= codes(word@));
    }
    true
}

/// Whether `args` (after the program name) ask for help, in the Unix (`-h`, `--help`) or
/// Windows (`/?`, `/help`) conventions, in any ASCII case.
pub fn wants_help(args: &[String]) -> (r: bool)
    ensures
        r == exists|i: int| 1 <= i < args@.len() && is_help_word(lower_codes(#[trigger] args@[i]@)),
{
    let mut i: usize = 1;
    while i < args.len()
        invariant
            1 <= i,
            forall|j: int| 1 <= j < i && j < args@.len() ==> !is_help_word(lower_codes(#[trigger] args@[j]@)),
        decreases args@.len() - i,
    {
        let a = chars_of(args[i].as_str());
        if eq_lower_chars(&a, "-h") || eq_lower_chars(&a, "-help") || eq_lower_chars(&a, "--help")
            || eq_lower_chars(&a, "help") || eq_lower_chars(&a, "/?") || eq_lower_chars(&a, "/h")
            || eq_lower_chars(&a, "/help") {
            return true;
        }
        i = i + 1;
    }
    false
}

} // verus!
