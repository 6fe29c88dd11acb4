//! Names and file names the editor builds from text.
use vstd::prelude::*;

verus! {

/// Appends one character to a string (`String::push` of std).
#[verifier::external_body]
pub fn push_char(s: &mut String, c: char)
    ensures
        final(s)@ == old(s)@.push(c),
{
    s.push(c);
}

/// The decimal digit for `d`.
pub open spec fn digit_char(d: int) -> char {
    if d == 0 { '0' } else if d == 1 { '1' } else if d == 2 { '2' } else if d == 3 { '3' } else if d == 4 { '4' }
    else if d == 5 { '5' } else if d == 6 { '6' } else if d == 7 { '7' } else if d == 8 { '8' } else { '9' }
}

/// `n` written in decimal, without leading zeros.
pub open spec fn decimal(n: nat) -> Seq<char>
    decreases n,
{
    if n < 10 { seq![digit_char(n as int)] } else { decimal(n / 10) + seq![digit_char((n % 10) as int)] }
}

fn digit(d: usize) -> (c: char)
    requires
        d < 10,
    ensures
        c == digit_char(d as int),
{
    if d == 0 { '0' } else if d == 1 { '1' } else if d == 2 { '2' } else if d == 3 { '3' } else if d == 4 { '4' }
    else if d == 5 { '5' } else if d == 6 { '6' } else if d == 7 { '7' } else if d == 8 { '8' } else { '9' }
}

/// Appends `n` in decimal to `s`.
pub fn push_decimal(s: &mut String, n: usize)
    ensures
        final(s)@ == old(s)@ + decimal(n as nat),
    decreases n,
{
    if n >= 10 {
        push_decimal(s, n / 10);
    }
    push_char(s, digit(n % 10));
    assert(final(s)@ =~= old(s)@ + decimal(n as nat));
}

/// The name of a layer added as the `n`-th one: "Layer n".
pub open spec fn layer_name(n: nat) -> Seq<char> {
    "Layer "@ + decimal(n)
}

/// "Layer n".
pub fn new_layer_name(n: usize) -> (s: String)
    ensures
        s@ == layer_name(n as nat),
{
    let mut s = String::from_str("Layer ");
    push_decimal(&mut s, n);
    s
}

/// The name of a duplicated layer: the copied layer's name and " copy".
pub open spec fn copy_name(name: Seq<char>) -> Seq<char> {
    name + " copy"@
}

/// "<name> copy".
pub fn copied_layer_name(name: &String) -> (s: String)
    ensures
        s@ == copy_name(name@),
{
    let mut s = name.clone();
    s.append(" copy");
    s
}

/// A character that may stand in a file name: path separators and colons
/// become '-'.
pub open spec fn safe_char(c: char) -> char {
    if c == '/' || c == '\\' || c == ':' { '-' } else { c }
}

/// A layer name made safe for a file name.
pub open spec fn safe_name(name: Seq<char>) -> Seq<char> {
    name.map_values(|c: char| safe_char(c))
}

/// Replaces '/', '\\' and ':' by '-'.
pub fn file_safe_name(name: &str) -> (s: String)
    ensures
        s@ == safe_name(name@),
{
    let mut s = String::new();
    let n: usize = name.unicode_len();
    let mut i: usize = 0;
    while i < n
        invariant
            n == name@.len(),
            i <= n,
            s@ == safe_name(name@.subrange(0, i as int)),
        decreases n - i,
    {
        let c: char = name.get_char(i);
        let d: char = if c == '/' || c == '\\' || c == ':' { '-' } else { c };
        push_char(&mut s, d);
        assert(name@.subrange(0, i + 1) =~= name@.subrange(0, i as int).push(c));
        assert(safe_name(name@.subrange(0, i + 1)) =~= safe_name(name@.subrange(0, i as int)).push(d));
        i = i + 1;
    }
    assert(name@.subrange(0, n as int) =~= name@);
    s
}

/// The index of the last '.' of `s`, or -1 when there is none.
pub open spec fn last_dot(s: Seq<char>) -> int
    decreases s.len(),
{
    if s.len() == 0 {
        -1
    } else if s.last() == '.' {
        s.len() - 1
    } else {
        last_dot(s.drop_last())
    }
}

/// A file name without its extension: everything before the last '.', or
/// the whole name when it has none.
pub open spec fn stem(s: Seq<char>) -> Seq<char> {
    if last_dot(s) < 0 { s } else { s.subrange(0, last_dot(s)) }
}

/// `last_dot` lies in the string.
pub proof fn lemma_last_dot_bounds(s: Seq<char>)
    ensures
        -1 <= last_dot(s) < s.len(),
        last_dot(s) >= 0 ==> s[last_dot(s)] == '.',
    decreases s.len(),
{
    if s.len() > 0 && s.last() != '.' {
        lemma_last_dot_bounds(s.drop_last());
    }
}

/// The first `n` characters of `s`.
fn prefix(s: &str, n: usize) -> (r: String)
    requires
        n <= s@.len(),
    ensures
        r@ == s@.subrange(0, n as int),
{
    let mut r = String::new();
    let mut i: usize = 0;
    while i < n
        invariant
            n <= s@.len(),
            i <= n,
            r@ == s@.subrange(0, i as int),
        decreases n - i,
    {
        let c: char = s.get_char(i);
        push_char(&mut r, c);
        assert(s@.subrange(0, i + 1) =~= s@.subrange(0, i as int).push(c));
        i = i + 1;
    }
    r
}

/// The name without its extension (see `stem`).
pub fn file_stem(name: &str) -> (r: String)
    ensures
        r@ == stem(name@),
{
    let n: usize = name.unicode_len();
    let mut dot: Option<usize> = None;
    let mut i: usize = 0;
    while i < n
        invariant
            n == name@.len(),
            i <= n,
            match dot {
                Some(d) => d as int == last_dot(name@.subrange(0, i as int)),
                None => last_dot(name@.subrange(0, i as int)) == -1,
            },
        decreases n - i,
    {
        let c: char = name.get_char(i);
        let ghost pre = name@.subrange(0, i + 1);
        assert(pre.drop_last() =~= name@.subrange(0, i as int));
        assert(pre.last() == c);
        if c == '.' {
            dot = Some(i);
        }
        i = i + 1;
    }
    assert(name@.subrange(0, n as int) =~= name@);
    proof { lemma_last_dot_bounds(name@); }
    match dot {
        None => prefix(name, n),
        Some(d) => prefix(name, d),
    }
}

/// `dir/base.png`.
pub open spec fn png_path(dir: Seq<char>, base: Seq<char>) -> Seq<char> {
    dir + "/"@ + base + ".png"@
}

/// The path of the PNG file `base` in the folder `dir`.
pub fn png_file(dir: &str, base: &str) -> (r: String)
    ensures
        r@ == png_path(dir@, base@),
{
    let mut r = String::from_str(dir);
    r.append("/");
    r.append(base);
    r.append(".png");
    r
}

/// `dir/base_n.png`: the file of frame number `n` (counting from 1) of an
/// animation exported frame by frame.
pub open spec fn frame_png_path(dir: Seq<char>, base: Seq<char>, n: nat) -> Seq<char> {
    dir + "/"@ + base + "_"@ + decimal(n) + ".png"@
}

/// The path of the PNG file of frame number `n` (see `frame_png_path`).
pub fn frame_png_file(dir: &str, base: &str, n: usize) -> (r: String)
    ensures
        r@ == frame_png_path(dir@, base@, n as nat),
{
    let mut r = String::from_str(dir);
    r.append("/");
    r.append(base);
    r.append("_");
    push_decimal(&mut r, n);
    r.append(".png");
    r
}

/// The position of the first 'x' at or after `k`, or the length.
pub open spec fn first_x_from(s: Seq<char>, k: int) -> int
    decreases s.len() - k,
{
    if k >= s.len() || s[k] == 'x' { k } else { first_x_from(s, k + 1) }
}

/// A decimal digit.
pub open spec fn is_digit(c: char) -> bool {
    48 <= (c as u32) <= 57
}

/// The number that the digits `d` write.
pub open spec fn digits_value(d: Seq<char>) -> nat
    decreases d.len(),
{
    if d.len() == 0 { 0 } else { digits_value(d.drop_last()) * 10 + ((d.last() as u32) - 48) as nat }
}

/// Every character of `d` is a decimal digit.
pub open spec fn all_digits(d: Seq<char>) -> bool {
    forall|i: int| 0 <= i < d.len() ==> is_digit(#[trigger] d[i])
}

/// `s` without a leading '+'.
pub open spec fn size_digits(s: Seq<char>) -> Seq<char> {
    if s.len() > 0 && s[0] == '+' { s.drop_first() } else { s }
}

/// `s` read as an unsigned number the way Rust's `usize` parsing does: an
/// optional '+', then at least one decimal digit, and a value that fits.
pub open spec fn parse_size(s: Seq<char>) -> Option<nat> {
    let body = size_digits(s);
    if body.len() > 0 && all_digits(body) && digits_value(body) <= usize::MAX {
        Some(digits_value(body))
    } else {
        None
    }
}

/// The side of a new square canvas named by a quick-action label such as
/// "32x32": the number before the first 'x', or 16 when there is none.
pub open spec fn label_side(label: Seq<char>) -> nat {
    match parse_size(label.subrange(0, first_x_from(label, 0))) {
        Some(v) => v,
        None => 16,
    }
}

proof fn lemma_first_x(s: Seq<char>, k: int)
    requires
        0 <= k <= s.len(),
    ensures
        k <= first_x_from(s, k) <= s.len(),
    decreases s.len() - k,
{
    if k < s.len() && s[k] != 'x' {
        lemma_first_x(s, k + 1);
    }
}

/// A prefix of a digit string is worth no more than the whole.
proof fn lemma_prefix_value(d: Seq<char>, k: int)
    requires
        0 <= k <= d.len(),
        forall|i: int| 0 <= i < d.len() ==> is_digit(#[trigger] d[i]),
    ensures
        digits_value(d.subrange(0, k)) <= digits_value(d),
    decreases d.len(),
{
    if k < d.len() {
        let t = d.drop_last();
        assert(t.subrange(0, k) =~= d.subrange(0, k));
        assert forall|i: int| 0 <= i < t.len() implies is_digit(#[trigger] t[i]) by {
            assert(t[i] == d[i]);
        }
        lemma_prefix_value(t, k);
    } else {
        assert(d.subrange(0, k) =~= d);
    }
}

/// See `label_side`.
pub fn side_from_label(label: &str) -> (side: usize)
    ensures
        side as nat == label_side(label@),
{
    let ghost t = label@;
    let n: usize = label.unicode_len();
    let mut e: usize = 0;
    while e < n && label.get_char(e) != 'x'
        invariant
            t == label@,
            n == t.len(),
            e <= n,
            first_x_from(t, 0) == first_x_from(t, e as int),
        decreases n - e,
    {
        e = e + 1;
    }
    proof { lemma_first_x(t, e as int); }
    let ghost seg = t.subrange(0, e as int);
    let b: usize = if e > 0 && label.get_char(0) == '+' { 1 } else { 0 };
    let ghost body = if seg.len() > 0 && seg[0] == '+' { seg.drop_first() } else { seg };
    assert(body =~= t.subrange(b as int, e as int));
    if b >= e {
        return 16;
    }
    let mut v: usize = 0;
    let mut i: usize = b;
    while i < e
        invariant
            t == label@,
            n == t.len(),
            b <= i <= e <= n,
            body == t.subrange(b as int, e as int),
            first_x_from(t, 0) == e,
            seg == t.subrange(0, e as int),
            body == (if seg.len() > 0 && seg[0] == '+' { seg.drop_first() } else { seg }),
            forall|j: int| b <= j < i ==> is_digit(#[trigger] t[j]),
            v as nat == digits_value(t.subrange(b as int, i as int)),
        decreases e - i,
    {
        let c: char = label.get_char(i);
        let cu: u32 = c as u32;
        if cu < 48 || cu > 57 {
            assert(body[i - b] == c);
            assert(!is_digit(body[i - b]));
            assert(!(forall|j: int| 0 <= j < body.len() ==> is_digit(#[trigger] body[j])));
            assert(parse_size(seg) is None);
            return 16;
        }
        let d: usize = (cu - 48) as usize;
        assert(t.subrange(b as int, i + 1).drop_last() =~= t.subrange(b as int, i as int));
        assert(t.subrange(b as int, i + 1).last() == c);
        assert(digits_value(t.subrange(b as int, i + 1)) == v * 10 + d);
        if v > (usize::MAX - d) / 10 {
            proof {
                assert(v * 10 + d > usize::MAX) by (nonlinear_arith)
                    requires v > (usize::MAX - d) / 10, d <= 9;
                if forall|j: int| 0 <= j < body.len() ==> is_digit(#[trigger] body[j]) {
                    lemma_prefix_value(body, i + 1 - b);
                    assert(body.subrange(0, i + 1 - b) =~= t.subrange(b as int, i + 1));
                    assert(digits_value(body) > usize::MAX);
                }
                assert(parse_size(seg) is None);
            }
            return 16;
        }
        v = v * 10 + d;
        i = i + 1;
    }
    assert(t.subrange(b as int, e as int) =~= body);
    assert forall|j: int| 0 <= j < body.len() implies is_digit(#[trigger] body[j]) by {
        assert(body[j] == t[b + j]);
    }
    v
}

/// The last '.' of a name that ends in "." and an extension without a dot
/// is the one before the extension.
proof fn lemma_last_dot_ext(s: Seq<char>, ext: Seq<char>)
    requires
        !ext.contains('.'),
    ensures
        last_dot(s + "."@ + ext) == s.len(),
    decreases ext.len(),
{
    reveal_strlit(".");
    let t = s + "."@ + ext;
    if ext.len() == 0 {
        assert(t =~= s.push('.'));
    } else {
        assert(t.last() == ext.last());
        assert(ext.last() != '.') by {
            assert(ext.contains(ext[ext.len() - 1]));
        }
        assert(t.drop_last() =~= s + "."@ + ext.drop_last());
        assert forall|c: char| ext.drop_last().contains(c) implies ext.contains(c) by {
            let j = choose|j: int| 0 <= j < ext.drop_last().len() && ext.drop_last()[j] == c;
            assert(ext[j] == c);
        }
        lemma_last_dot_ext(s, ext.drop_last());
    }
}

/// A name without a dot has no last dot.
proof fn lemma_no_dot(s: Seq<char>)
    requires
        !s.contains('.'),
    ensures
        last_dot(s) == -1,
    decreases s.len(),
{
    if s.len() > 0 {
        assert(s.contains(s[s.len() - 1]));
        assert forall|c: char| s.drop_last().contains(c) implies s.contains(c) by {
            let j = choose|j: int| 0 <= j < s.drop_last().len() && s.drop_last()[j] == c;
            assert(s[j] == c);
        }
        lemma_no_dot(s.drop_last());
    }
}

/// Taking the stem drops exactly one extension: the stem of `s.ext`, for
/// an extension without a dot, is `s` (dots inside `s` stay), and a name
/// without a dot is its own stem.
pub proof fn law_stem_drops_extension(s: Seq<char>, ext: Seq<char>)
    requires
        !ext.contains('.'),
    ensures
        stem(s + "."@ + ext) == s,
        !s.contains('.') ==> stem(s) == s,
{
    reveal_strlit(".");
    lemma_last_dot_ext(s, ext);
    assert((s + "."@ + ext).subrange(0, s.len() as int) =~= s);
    if !s.contains('.') {
        lemma_no_dot(s);
    }
}

/// A file-safe name has the length of the name, holds no '/', '\\' or ':',
/// and keeps every other character where it was.
pub proof fn law_safe_name(name: Seq<char>)
    ensures
        safe_name(name).len() == name.len(),
        !safe_name(name).contains('/'),
        !safe_name(name).contains('\\'),
        !safe_name(name).contains(':'),
        forall|i: int| 0 <= i < name.len() && name[i] != '/' && name[i] != '\\' && name[i] != ':'
            ==> #[trigger] safe_name(name)[i] == name[i],
{
}

} // verus!
