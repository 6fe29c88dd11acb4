//! The settings file: lines of text, one of which may switch the welcome
//! window off.
use vstd::prelude::*;
use crate::text::push_char;

verus! {

/// White space in the sense of Unicode (the `White_Space` property).
pub open spec fn is_space(c: char) -> bool {
    let u = c as u32;
    ||| 9 <= u <= 13
    ||| u == 32
    ||| u == 0x85
    ||| u == 0xA0
    ||| u == 0x1680
    ||| 0x2000 <= u <= 0x200A
    ||| u == 0x2028
    ||| u == 0x2029
    ||| u == 0x202F
    ||| u == 0x205F
    ||| u == 0x3000
}

/// `is_space` computed.
pub fn space(c: char) -> (r: bool)
    ensures
        r == is_space(c),
{
    let u: u32 = c as u32;
    (9 <= u && u <= 13) || u == 32 || u == 0x85 || u == 0xA0 || u == 0x1680 || (0x2000 <= u && u <= 0x200A)
        || u == 0x2028 || u == 0x2029 || u == 0x202F || u == 0x205F || u == 0x3000
}

/// The end of the line that starts at `a`: the next line break, or the end
/// of the text.
pub open spec fn line_end(t: Seq<char>, a: int) -> int
    decreases t.len() - a,
{
    if a >= t.len() || t[a] == '\n' { a } else { line_end(t, a + 1) }
}

/// The first position of `[a, b)` that is not white space, or `b`.
pub open spec fn skip_space(t: Seq<char>, a: int, b: int) -> int
    decreases b - a,
{
    if a >= b || !is_space(t[a]) { a } else { skip_space(t, a + 1, b) }
}

/// The end of `[a, b)` once the white space at its end is cut off.
pub open spec fn cut_space(t: Seq<char>, a: int, b: int) -> int
    decreases b - a,
{
    if b <= a || !is_space(t[b - 1]) { b } else { cut_space(t, a, b - 1) }
}

/// The line that starts at `a`, without white space at either end.
pub open spec fn trimmed_line(t: Seq<char>, a: int) -> Seq<char> {
    let b = line_end(t, a);
    let a2 = skip_space(t, a, b);
    t.subrange(a2, cut_space(t, a2, b))
}

/// A line starts at `a`.
pub open spec fn line_start(t: Seq<char>, a: int) -> bool {
    a == 0 || (0 < a <= t.len() && t[a - 1] == '\n')
}

/// The line that switches the welcome window off.
pub open spec fn welcome_off_line() -> Seq<char> {
    "welcome_show_again=0"@
}

/// Some line of the settings reads, trimmed, "welcome_show_again=0".
pub open spec fn welcome_off(t: Seq<char>) -> bool {
    exists|a: int| 0 <= a <= t.len() && line_start(t, a) && #[trigger] trimmed_line(t, a) == welcome_off_line()
}

/// The line from `a` runs up to `line_end` without a line break, and
/// `line_end` is a break or the end.
proof fn lemma_line_end(t: Seq<char>, a: int)
    requires
        0 <= a <= t.len(),
    ensures
        a <= line_end(t, a) <= t.len(),
        line_end(t, a) < t.len() ==> t[line_end(t, a)] == '\n',
        forall|k: int| a <= k < line_end(t, a) ==> t[k] != '\n',
    decreases t.len() - a,
{
    if a < t.len() && t[a] != '\n' {
        lemma_line_end(t, a + 1);
    }
}

/// Whether `t[a..b)` is `key`.
fn slice_is(text: &str, a: usize, b: usize, key: &str) -> (r: bool)
    requires
        a <= b <= text@.len(),
    ensures
        r == (text@.subrange(a as int, b as int) == key@),
{
    let k: usize = key.unicode_len();
    if b - a != k {
        return false;
    }
    let mut j: usize = 0;
    while j < k
        invariant
            a <= b <= text@.len(),
            b - a == k,
            k == key@.len(),
            j <= k,
            forall|i: int| 0 <= i < j ==> text@[a + i] == key@[i],
        decreases k - j,
    {
        if text.get_char(a + j) != key.get_char(j) {
            assert(text@.subrange(a as int, b as int)[j as int] != key@[j as int]);
            return false;
        }
        j = j + 1;
    }
    assert(text@.subrange(a as int, b as int) =~= key@);
    true
}

/// Whether the welcome window shows on startup: unless some line of the
/// settings text `text` reads "welcome_show_again=0" (white space around
/// it does not count).
pub fn welcome_show_again(text: &str) -> (show: bool)
    ensures
        show == !welcome_off(text@),
{
    let ghost t = text@;
    let n: usize = text.unicode_len();
    let mut a: usize = 0;
    loop
        invariant
            n == t.len(),
            t == text@,
            a <= n,
            line_start(t, a as int),
            forall|a1: int| 0 <= a1 < a && line_start(t, a1) ==> #[trigger] trimmed_line(t, a1) != welcome_off_line(),
        decreases n - a,
    {
        let mut b: usize = a;
        while b < n && text.get_char(b) != '\n'
            invariant
                n == t.len(),
                t == text@,
                a <= b <= n,
                line_end(t, a as int) == line_end(t, b as int),
            decreases n - b,
        {
            b = b + 1;
        }
        let mut a2: usize = a;
        while a2 < b && space(text.get_char(a2))
            invariant
                t == text@,
                a <= a2 <= b <= n,
                n == t.len(),
                skip_space(t, a as int, b as int) == skip_space(t, a2 as int, b as int),
            decreases b - a2,
        {
            a2 = a2 + 1;
        }
        let mut b2: usize = b;
        while b2 > a2 && space(text.get_char(b2 - 1))
            invariant
                t == text@,
                a2 <= b2 <= b <= n,
                n == t.len(),
                cut_space(t, a2 as int, b as int) == cut_space(t, a2 as int, b2 as int),
            decreases b2 - a2,
        {
            b2 = b2 - 1;
        }
        proof {
            lemma_line_end(t, a as int);
        }
        if slice_is(text, a2, b2, "welcome_show_again=0") {
            assert(trimmed_line(t, a as int) == welcome_off_line());
            return false;
        }
        assert(trimmed_line(t, a as int) != welcome_off_line());
        if b >= n {
            assert forall|a1: int| 0 <= a1 <= t.len() && line_start(t, a1) implies #[trigger] trimmed_line(t, a1) != welcome_off_line() by {
                if a1 > a {
                    assert(t[a1 - 1] != '\n');
                }
            }
            return true;
        }
        assert forall|a1: int| 0 <= a1 < b + 1 && line_start(t, a1) implies #[trigger] trimmed_line(t, a1) != welcome_off_line() by {
            if a1 > a {
                assert(t[a1 - 1] != '\n');
            }
        }
        a = b + 1;
    }
}

/// The settings text that records whether the welcome window shows.
pub open spec fn settings_spec(show: bool) -> Seq<char> {
    "welcome_show_again="@ + (if show { seq!['1'] } else { seq!['0'] }) + seq!['\n']
}

/// The settings text for `show` (see `settings_spec`).
pub fn settings_text(show: bool) -> (s: String)
    ensures
        s@ == settings_spec(show),
{
    let mut s = String::from_str("welcome_show_again=");
    push_char(&mut s, if show { '1' } else { '0' });
    push_char(&mut s, '\n');
    assert(s@ =~= settings_spec(show));
    s
}

/// Settings written for `show` read back as `show`: the welcome window is
/// off exactly when it was saved as off.
pub proof fn law_settings_round_trip(show: bool)
    ensures
        welcome_off(settings_spec(show)) == !show,
{
    reveal_strlit("welcome_show_again=");
    reveal_strlit("welcome_show_again=0");
    let t = settings_spec(show);
    let c: char = if show { '1' } else { '0' };
    assert(t.len() == 21);
    assert(t[19] == c);
    assert(t[20] == '\n');
    assert(forall|k: int| 0 <= k < 20 ==> t[k] != '\n');
    lemma_line_end(t, 0);
    assert(line_end(t, 0) == 20);
    assert(skip_space(t, 0, 20) == 0);
    assert(cut_space(t, 0, 20) == 20);
    assert(trimmed_line(t, 0) == t.subrange(0, 20));
    assert(line_end(t, 21) == 21);
    assert(trimmed_line(t, 21).len() == 0);
    if show {
        assert(t.subrange(0, 20)[19] != welcome_off_line()[19]);
        assert forall|a: int| 0 <= a <= t.len() && line_start(t, a) implies #[trigger] trimmed_line(t, a) != welcome_off_line() by {
            if 0 < a < 21 {
                assert(t[a - 1] != '\n');
            }
        }
    } else {
        assert(t.subrange(0, 20) =~= welcome_off_line());
        assert(line_start(t, 0));
    }
}

} // verus!
