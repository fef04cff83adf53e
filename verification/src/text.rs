//! Character-level text model shared by every reply the bot builds.
//!
//! Strings are viewed as sequences of `char`; the byte length that Discord
//! limits and that `str::len` reports is the UTF-8 length of that sequence.

use vstd::prelude::*;
use vstd::string::*;
use vstd::utf8::*;

verus! {

broadcast use vstd::utf8::char_is_scalar;

/// Number of bytes that UTF-8 uses for `c`.
pub open spec fn char_width(c: char) -> nat {
    if (c as u32) <= 0x7F {
        1
    } else if (c as u32) <= 0x7FF {
        2
    } else if (c as u32) <= 0xFFFF {
        3
    } else {
        4
    }
}

/// Number of bytes of the UTF-8 encoding of `s`.
pub open spec fn utf8_len(s: Seq<char>) -> nat
    decreases s.len(),
{
    if s.len() == 0 {
        0
    } else {
        char_width(s[0]) + utf8_len(s.drop_first())
    }
}

/// `n` bytes into the UTF-8 encoding of `s` lies on a character boundary.
pub open spec fn is_byte_boundary(s: Seq<char>, n: int) -> bool {
    exists|k: int| 0 <= k <= s.len() && utf8_len(#[trigger] s.take(k)) == n
}

/// The characters whose encoding fills the first `n` bytes of `s`
/// (meaningful where `is_byte_boundary(s, n)`).
pub open spec fn byte_prefix(s: Seq<char>, n: int) -> Seq<char> {
    s.take(choose|k: int| 0 <= k <= s.len() && utf8_len(#[trigger] s.take(k)) == n)
}

/// `msg` when it fits in `max` bytes; otherwise its first `keep` bytes
/// followed by `suffix`.
pub open spec fn clipped(msg: Seq<char>, max: int, keep: int, suffix: Seq<char>) -> Seq<char> {
    if utf8_len(msg) > max {
        byte_prefix(msg, keep) + suffix
    } else {
        msg
    }
}

/// The decimal digit or lower-case hexadecimal digit with value `d`.
pub open spec fn digit_char(d: int) -> char {
    if d == 0 { '0' }
    else if d == 1 { '1' }
    else if d == 2 { '2' }
    else if d == 3 { '3' }
    else if d == 4 { '4' }
    else if d == 5 { '5' }
    else if d == 6 { '6' }
    else if d == 7 { '7' }
    else if d == 8 { '8' }
    else if d == 9 { '9' }
    else if d == 10 { 'a' }
    else if d == 11 { 'b' }
    else if d == 12 { 'c' }
    else if d == 13 { 'd' }
    else if d == 14 { 'e' }
    else { 'f' }
}

/// Decimal notation of `n`, as `{}` prints an unsigned integer.
pub open spec fn decimal(n: nat) -> Seq<char>
    decreases n,
{
    if n < 10 {
        seq![digit_char(n as int)]
    } else {
        decimal(n / 10).push(digit_char((n % 10) as int))
    }
}

/// `n` copies of `c`.
pub open spec fn repeat(c: char, n: nat) -> Seq<char> {
    Seq::new(n, |i: int| c)
}

/// `s` followed by spaces up to `width` characters, as `{:<width}` prints it.
pub open spec fn pad_right(s: Seq<char>, width: nat) -> Seq<char> {
    if s.len() >= width {
        s
    } else {
        s + repeat(' ', (width - s.len()) as nat)
    }
}

/// Spaces up to `width` characters followed by `s`, as `{:>width}` prints it.
pub open spec fn pad_left(s: Seq<char>, width: nat) -> Seq<char> {
    if s.len() >= width {
        s
    } else {
        repeat(' ', (width - s.len()) as nat) + s
    }
}

/// `pat` occurs in `s` starting at index `i`.
pub open spec fn occurs_at(s: Seq<char>, pat: Seq<char>, i: int) -> bool {
    0 <= i && i + pat.len() <= s.len() && s.subrange(i, i + pat.len()) == pat
}

/// `pat` occurs somewhere in `s`, as `str::contains` decides.
pub open spec fn seq_contains(s: Seq<char>, pat: Seq<char>) -> bool {
    exists|i: int| occurs_at(s, pat, i)
}

/// The characters that `char::is_whitespace` accepts (Unicode `White_Space`).
pub open spec fn is_white_space(c: char) -> bool {
    let u = c as u32;
    ||| 0x9 <= u <= 0xD
    ||| u == 0x20
    ||| u == 0x85
    ||| u == 0xA0
    ||| u == 0x1680
    ||| 0x2000 <= u <= 0x200A
    ||| u == 0x2028
    ||| u == 0x2029
    ||| u == 0x202F
    ||| u == 0x205F
    ||| u == 0x3000
}

/// Number of leading white-space characters of `s`.
pub open spec fn leading_ws(s: Seq<char>) -> nat
    decreases s.len(),
{
    if s.len() == 0 || !is_white_space(s[0]) {
        0
    } else {
        1 + leading_ws(s.drop_first())
    }
}

/// Number of trailing white-space characters of `s`.
pub open spec fn trailing_ws(s: Seq<char>) -> nat
    decreases s.len(),
{
    if s.len() == 0 || !is_white_space(s.last()) {
        0
    } else {
        1 + trailing_ws(s.drop_last())
    }
}

/// `s` without leading and trailing white space, as `str::trim` returns it.
pub open spec fn trimmed(s: Seq<char>) -> Seq<char> {
    let t = s.skip(leading_ws(s) as int);
    t.take(t.len() - trailing_ws(t))
}

// ---------------------------------------------------------------------------
// Lemmas
// ---------------------------------------------------------------------------

pub proof fn lemma_utf8_len_concat(a: Seq<char>, b: Seq<char>)
    ensures
        utf8_len(a + b) == utf8_len(a) + utf8_len(b),
    decreases a.len(),
{
    if a.len() == 0 {
        assert(a + b =~= b);
    } else {
        assert((a + b).drop_first() =~= a.drop_first() + b);
        lemma_utf8_len_concat(a.drop_first(), b);
    }
}

pub proof fn lemma_utf8_len_single(c: char)
    ensures
        utf8_len(seq![c]) == char_width(c),
{
    assert(seq![c].drop_first() =~= Seq::<char>::empty());
    assert(utf8_len(seq![c].drop_first()) == 0);
}

pub proof fn lemma_utf8_len_push(s: Seq<char>, c: char)
    ensures
        utf8_len(s.push(c)) == utf8_len(s) + char_width(c),
{
    lemma_utf8_len_concat(s, seq![c]);
    assert(s.push(c) =~= s + seq![c]);
    lemma_utf8_len_single(c);
}

/// Each character takes at least one byte.
pub proof fn lemma_utf8_len_at_least_len(s: Seq<char>)
    ensures
        utf8_len(s) >= s.len(),
    decreases s.len(),
{
    if s.len() > 0 {
        lemma_utf8_len_at_least_len(s.drop_first());
    }
}

/// Byte length of the first `k + 1` characters.
pub proof fn lemma_utf8_len_take_next(s: Seq<char>, k: int)
    requires
        0 <= k < s.len(),
    ensures
        utf8_len(s.take(k + 1)) == utf8_len(s.take(k)) + char_width(s[k]),
{
    assert(s.take(k + 1) =~= s.take(k).push(s[k]));
    lemma_utf8_len_push(s.take(k), s[k]);
}

/// Longer prefixes take strictly more bytes.
pub proof fn lemma_utf8_len_take_strict(s: Seq<char>, j: int, k: int)
    requires
        0 <= j < k <= s.len(),
    ensures
        utf8_len(s.take(j)) < utf8_len(s.take(k)),
{
    assert(s.take(k) =~= s.take(j) + s.subrange(j, k));
    lemma_utf8_len_concat(s.take(j), s.subrange(j, k));
    lemma_utf8_len_at_least_len(s.subrange(j, k));
}

/// A boundary names exactly one prefix.
pub proof fn lemma_byte_prefix(s: Seq<char>, n: int, k: int)
    requires
        0 <= k <= s.len(),
        utf8_len(s.take(k)) == n,
    ensures
        is_byte_boundary(s, n),
        byte_prefix(s, n) == s.take(k),
{
    let j = choose|j: int| 0 <= j <= s.len() && utf8_len(#[trigger] s.take(j)) == n;
    if j < k {
        lemma_utf8_len_take_strict(s, j, k);
    } else if k < j {
        lemma_utf8_len_take_strict(s, k, j);
    }
}

/// The byte length that `str::len` reports (the length of vstd's
/// `encode_utf8`) is `utf8_len`.
pub proof fn law_utf8_len_is_str_len(s: Seq<char>)
    ensures
        encode_utf8(s).len() == utf8_len(s),
    decreases s.len(),
{
    if s.len() > 0 {
        law_utf8_len_is_str_len(s.drop_first());
        let c = s[0];
        char_is_scalar(c);
        assert(encode_scalar(c as u32).len() == char_width(c));
    }
}

/// Every character is ASCII.
pub open spec fn all_ascii(s: Seq<char>) -> bool {
    forall|i: int| 0 <= i < s.len() ==> (#[trigger] s[i] as u32) <= 0x7F
}

/// ASCII text takes one byte per character.
pub proof fn lemma_ascii_utf8_len(s: Seq<char>)
    requires
        all_ascii(s),
    ensures
        utf8_len(s) == s.len(),
    decreases s.len(),
{
    if s.len() > 0 {
        assert(all_ascii(s.drop_first())) by {
            assert forall|i: int| 0 <= i < s.drop_first().len() implies (
            #[trigger] s.drop_first()[i] as u32) <= 0x7F by {
                assert(s.drop_first()[i] == s[i + 1]);
            }
        }
        lemma_ascii_utf8_len(s.drop_first());
    }
}

/// Trimmed text neither starts nor ends with white space.
pub proof fn law_trimmed_edges(s: Seq<char>)
    ensures
        trimmed(s).len() > 0 ==> !is_white_space(trimmed(s)[0]) && !is_white_space(
            trimmed(s).last(),
        ),
{
    lemma_leading_ws(s);
    let t = s.skip(leading_ws(s) as int);
    lemma_trailing_ws(t);
    let r = trimmed(s);
    if r.len() > 0 {
        assert(r[0] == t[0]);
        assert(r.last() == t[t.len() - trailing_ws(t) - 1]);
    }
}

/// `leading_ws` counts white space, and stops at the first other character.
pub proof fn lemma_leading_ws(s: Seq<char>)
    ensures
        leading_ws(s) <= s.len(),
        leading_ws(s) < s.len() ==> !is_white_space(s[leading_ws(s) as int]),
    decreases s.len(),
{
    if s.len() > 0 && is_white_space(s[0]) {
        lemma_leading_ws(s.drop_first());
    }
}

/// `trailing_ws` counts white space, and stops at the last other character.
pub proof fn lemma_trailing_ws(s: Seq<char>)
    ensures
        trailing_ws(s) <= s.len(),
        trailing_ws(s) < s.len() ==> !is_white_space(s[s.len() - trailing_ws(s) - 1]),
    decreases s.len(),
{
    if s.len() > 0 && is_white_space(s.last()) {
        lemma_trailing_ws(s.drop_last());
    }
}

/// A clipped message fits in `max` bytes when what is kept and the suffix do.
pub proof fn law_clipped_fits(msg: Seq<char>, max: int, keep: int, suffix: Seq<char>)
    requires
        utf8_len(msg) > max ==> is_byte_boundary(msg, keep),
        keep + utf8_len(suffix) <= max,
    ensures
        utf8_len(clipped(msg, max, keep, suffix)) <= max,
{
    if utf8_len(msg) > max {
        let k = choose|k: int| 0 <= k <= msg.len() && utf8_len(#[trigger] msg.take(k)) == keep;
        lemma_byte_prefix(msg, keep, k);
        lemma_utf8_len_concat(byte_prefix(msg, keep), suffix);
    }
}

/// The last `n` bytes of the UTF-8 encoding of `s` start on a character
/// boundary.
pub open spec fn is_tail_boundary(s: Seq<char>, n: int) -> bool {
    exists|k: int| 0 <= k <= s.len() && utf8_len(#[trigger] s.skip(k)) == n
}

/// The characters whose encoding fills the last `n` bytes of `s`
/// (meaningful where `is_tail_boundary(s, n)`).
pub open spec fn byte_tail(s: Seq<char>, n: int) -> Seq<char> {
    s.skip(choose|k: int| 0 <= k <= s.len() && utf8_len(#[trigger] s.skip(k)) == n)
}

/// A prefix and the rest share out the bytes.
pub proof fn lemma_utf8_len_split(s: Seq<char>, k: int)
    requires
        0 <= k <= s.len(),
    ensures
        utf8_len(s.take(k)) + utf8_len(s.skip(k)) == utf8_len(s),
{
    assert(s =~= s.take(k) + s.skip(k));
    lemma_utf8_len_concat(s.take(k), s.skip(k));
}

/// The last `n` bytes are what follows the first `utf8_len(s) - n` bytes:
/// slicing from the end is slicing from `len - n`.
pub proof fn law_tail_is_suffix_after_prefix(s: Seq<char>, n: int, k: int)
    requires
        0 <= k <= s.len(),
        utf8_len(s.skip(k)) == n,
    ensures
        is_tail_boundary(s, n),
        is_byte_boundary(s, utf8_len(s) - n),
        byte_tail(s, n) == s.skip(k),
        byte_prefix(s, utf8_len(s) - n) == s.take(k),
{
    lemma_utf8_len_split(s, k);
    lemma_byte_prefix(s, utf8_len(s) - n, k);
    let j = choose|j: int| 0 <= j <= s.len() && utf8_len(#[trigger] s.skip(j)) == n;
    lemma_utf8_len_split(s, j);
    if j < k {
        lemma_utf8_len_take_strict(s, j, k);
    } else if k < j {
        lemma_utf8_len_take_strict(s, k, j);
    }
}

// ---------------------------------------------------------------------------
// Executable helpers
// ---------------------------------------------------------------------------

/// Calls `String::push`: `s` gets `c` appended at its end.
#[verifier::external_body]
pub(crate) fn push_char(s: &mut String, c: char)
    ensures
        final(s)@ == old(s)@.push(c),
{
    s.push(c)
}

/// Appends `t` to `s`.
pub fn push_str(s: &mut String, t: &str)
    ensures
        final(s)@ == old(s)@ + t@,
{
    s.append(t);
}

/// The characters of `s`, in order.
pub fn chars_of(s: &str) -> (v: Vec<char>)
    ensures
        v@ == s@,
{
    let mut v: Vec<char> = Vec::new();
    for c in it: s.chars()
        invariant
            v@ == it.seq().take(it.index()),
    {
        v.push(c);
    }
    v
}

/// Appends the characters `v[from..to]` to `s`.
pub fn push_range(s: &mut String, v: &Vec<char>, from: usize, to: usize)
    requires
        from <= to <= v.len(),
    ensures
        final(s)@ == old(s)@ + v@.subrange(from as int, to as int),
{
    let ghost start = s@;
    let mut i = from;
    while i < to
        invariant
            from <= i <= to <= v.len(),
            s@ == start + v@.subrange(from as int, i as int),
        decreases to - i,
    {
        push_char(s, v[i]);
        i = i + 1;
        assert(v@.subrange(from as int, i as int) =~= v@.subrange(from as int, i - 1).push(v[i - 1]));
    }
}

/// A new string holding the characters `v[from..to]`.
pub fn string_of_range(v: &Vec<char>, from: usize, to: usize) -> (s: String)
    requires
        from <= to <= v.len(),
    ensures
        s@ == v@.subrange(from as int, to as int),
{
    let mut s = String::new();
    push_range(&mut s, v, from, to);
    assert(Seq::<char>::empty() + v@.subrange(from as int, to as int) =~= v@.subrange(from as int, to as int));
    s
}

/// A copy of `t` as an owned string.
pub fn owned(t: &str) -> (s: String)
    ensures
        s@ == t@,
{
    let mut s = String::new();
    push_str(&mut s, t);
    assert(Seq::<char>::empty() + t@ =~= t@);
    s
}

/// Number of UTF-8 bytes of `c`.
pub fn width_of(c: char) -> (w: usize)
    ensures
        w == char_width(c),
{
    let u = c as u32;
    if u <= 0x7F {
        1
    } else if u <= 0x7FF {
        2
    } else if u <= 0xFFFF {
        3
    } else {
        4
    }
}

/// Whether the UTF-8 encoding of `v` takes more than `max` bytes.
pub fn longer_than(v: &Vec<char>, max: usize) -> (b: bool)
    ensures
        b == (utf8_len(v@) > max),
{
    let n = v.len();
    let mut i: usize = 0;
    let mut acc: usize = 0;
    proof {
        assert(v@.take(0) =~= Seq::<char>::empty());
    }
    while i < n
        invariant
            n == v.len(),
            i <= n,
            acc == utf8_len(v@.take(i as int)),
            acc <= max,
        decreases n - i,
    {
        proof {
            lemma_utf8_len_take_next(v@, i as int);
        }
        let w = width_of(v[i]);
        if w > max - acc {
            proof {
                if i + 1 < n {
                    lemma_utf8_len_take_strict(v@, i + 1, n as int);
                }
                assert(v@.take(n as int) =~= v@);
            }
            return true;
        }
        acc = acc + w;
        i = i + 1;
    }
    assert(v@.take(n as int) =~= v@);
    false
}

/// The number of characters that fill the first `n` bytes of `v`.
pub fn prefix_chars(v: &Vec<char>, n: usize) -> (k: usize)
    requires
        is_byte_boundary(v@, n as int),
    ensures
        k <= v.len(),
        utf8_len(v@.take(k as int)) == n,
        byte_prefix(v@, n as int) == v@.take(k as int),
{
    let ghost target = choose|j: int| 0 <= j <= v@.len() && utf8_len(#[trigger] v@.take(j)) == n;
    let len = v.len();
    let mut i: usize = 0;
    let mut acc: usize = 0;
    proof {
        assert(v@.take(0) =~= Seq::<char>::empty());
    }
    while acc < n
        invariant
            len == v@.len(),
            0 <= target <= len,
            utf8_len(v@.take(target)) == n,
            i <= target,
            acc == utf8_len(v@.take(i as int)),
            acc <= n,
        decreases target - i,
    {
        proof {
            assert(i < target);
            lemma_utf8_len_take_next(v@, i as int);
            if i + 1 < target {
                lemma_utf8_len_take_strict(v@, i + 1, target);
            }
        }
        acc = acc + width_of(v[i]);
        i = i + 1;
    }
    proof {
        if (i as int) < target {
            lemma_utf8_len_take_strict(v@, i as int, target);
        }
        lemma_byte_prefix(v@, n as int, i as int);
    }
    i
}

/// The number of leading characters of `v` that precede its last `n`
/// bytes.
pub fn tail_start(v: &Vec<char>, n: usize) -> (k: usize)
    requires
        is_tail_boundary(v@, n as int),
    ensures
        k <= v.len(),
        utf8_len(v@.skip(k as int)) == n,
        byte_tail(v@, n as int) == v@.skip(k as int),
{
    let ghost target = choose|j: int| 0 <= j <= v@.len() && utf8_len(#[trigger] v@.skip(j)) == n;
    let len = v.len();
    let mut i: usize = len;
    let mut acc: usize = 0;
    assert(v@.skip(len as int) =~= Seq::<char>::empty());
    while acc < n
        invariant
            len == v@.len(),
            0 <= target <= len,
            utf8_len(v@.skip(target)) == n,
            target <= i <= len,
            acc == utf8_len(v@.skip(i as int)),
            acc <= n,
        decreases i,
    {
        proof {
            if i as int == target {
                assert(false);
            }
            lemma_utf8_len_split(v@, i - 1);
            lemma_utf8_len_split(v@, i as int);
            lemma_utf8_len_take_next(v@, i - 1);
            if target < i - 1 {
                lemma_utf8_len_split(v@, target);
                lemma_utf8_len_take_strict(v@, target, i - 1);
            }
        }
        acc = acc + width_of(v[i - 1]);
        i = i - 1;
    }
    proof {
        if target < i {
            lemma_utf8_len_split(v@, target);
            lemma_utf8_len_split(v@, i as int);
            lemma_utf8_len_take_strict(v@, target, i as int);
        }
    }
    i
}

/// Appends the decimal notation of `n` to `s`.
pub fn push_decimal(s: &mut String, n: u64)
    ensures
        final(s)@ == old(s)@ + decimal(n as nat),
    decreases n,
{
    let ghost start = s@;
    if n >= 10 {
        push_decimal(s, n / 10);
    }
    push_char(s, digit(n % 10));
    assert(s@ =~= start + decimal(n as nat));
}

/// The digit character with value `d`.
pub fn digit(d: u64) -> (c: char)
    requires
        d < 16,
    ensures
        c == digit_char(d as int),
{
    if d == 0 { '0' }
    else if d == 1 { '1' }
    else if d == 2 { '2' }
    else if d == 3 { '3' }
    else if d == 4 { '4' }
    else if d == 5 { '5' }
    else if d == 6 { '6' }
    else if d == 7 { '7' }
    else if d == 8 { '8' }
    else if d == 9 { '9' }
    else if d == 10 { 'a' }
    else if d == 11 { 'b' }
    else if d == 12 { 'c' }
    else if d == 13 { 'd' }
    else if d == 14 { 'e' }
    else { 'f' }
}

/// Appends `n` copies of `c` to `s`.
pub fn push_repeat(s: &mut String, c: char, n: usize)
    ensures
        final(s)@ == old(s)@ + repeat(c, n as nat),
{
    let ghost start = s@;
    let mut i: usize = 0;
    while i < n
        invariant
            i <= n,
            s@ == start + repeat(c, i as nat),
        decreases n - i,
    {
        push_char(s, c);
        i = i + 1;
        assert(repeat(c, i as nat) =~= repeat(c, (i - 1) as nat).push(c));
        assert(s@ =~= start + repeat(c, i as nat));
    }
}

/// `t` padded with spaces on the right to `width` characters.
pub fn padded_right(t: &str, width: usize) -> (r: String)
    ensures
        r@ == pad_right(t@, width as nat),
{
    let mut r = owned(t);
    let n = t.unicode_len();
    if n < width {
        push_repeat(&mut r, ' ', width - n);
    }
    r
}

/// Appends the decimal notation of `n`, padded with spaces on the left to
/// `width` characters.
pub fn push_number_padded_left(s: &mut String, n: u64, width: usize)
    ensures
        final(s)@ == old(s)@ + pad_left(decimal(n as nat), width as nat),
{
    let ghost start = s@;
    let mut digits = String::new();
    push_decimal(&mut digits, n);
    assert(digits@ =~= decimal(n as nat));
    let len = digits.as_str().unicode_len();
    if len < width {
        push_repeat(s, ' ', width - len);
    }
    push_str(s, digits.as_str());
    assert(s@ =~= start + pad_left(decimal(n as nat), width as nat));
}

/// Appends `t`, padded with spaces on the left to `width` characters.
pub fn push_padded_left(s: &mut String, t: &str, width: usize)
    ensures
        final(s)@ == old(s)@ + pad_left(t@, width as nat),
{
    let ghost start = s@;
    let n = t.unicode_len();
    if n < width {
        push_repeat(s, ' ', width - n);
    }
    push_str(s, t);
    assert(s@ =~= start + pad_left(t@, width as nat));
}

/// Whether `pat` occurs in `s`, as `str::contains` decides.
pub fn contains(s: &Vec<char>, pat: &str) -> (b: bool)
    ensures
        b == seq_contains(s@, pat@),
{
    let p = chars_of(pat);
    let n = s.len();
    let m = p.len();
    if m > n {
        assert forall|i: int| !occurs_at(s@, pat@, i) by {}
        return false;
    }
    let mut i: usize = 0;
    while i <= n - m
        invariant
            m <= n == s.len(),
            m == p.len(),
            p@ == pat@,
            i <= n - m + 1,
            forall|j: int| 0 <= j < i ==> !occurs_at(s@, pat@, j),
        decreases n - i,
    {
        let mut j: usize = 0;
        let mut same = true;
        while j < m
            invariant
                m <= n == s.len(),
                m == p.len(),
                i + m <= n,
                j <= m,
                same == (forall|t: int| 0 <= t < j ==> s@[i + t] == p@[t]),
            decreases m - j,
        {
            if s[i + j] != p[j] {
                same = false;
            }
            j = j + 1;
        }
        if same {
            assert(s@.subrange(i as int, i + m) =~= pat@);
            assert(occurs_at(s@, pat@, i as int));
            return true;
        }
        proof {
            if occurs_at(s@, pat@, i as int) {
                let t = choose|t: int| 0 <= t < m && s@[i + t] != p@[t];
                assert(s@.subrange(i as int, i + m)[t] == s@[i + t]);
            }
        }
        i = i + 1;
    }
    assert forall|j: int| !occurs_at(s@, pat@, j) by {
        if 0 <= j < i {
        }
    }
    false
}

/// `v` without leading and trailing white space.
pub fn trim(v: &Vec<char>) -> (r: String)
    ensures
        r@ == trimmed(v@),
{
    let n = v.len();
    let mut a: usize = 0;
    assert(v@.skip(0) =~= v@);
    while a < n && is_ws(v[a])
        invariant
            n == v.len(),
            a <= n,
            leading_ws(v@) == a + leading_ws(v@.skip(a as int)),
        decreases n - a,
    {
        assert(v@.skip(a as int).drop_first() =~= v@.skip(a + 1));
        a = a + 1;
    }
    assert(leading_ws(v@.skip(a as int)) == 0);
    let mut b: usize = n;
    let ghost t = v@.skip(a as int);
    while b > a && is_ws(v[b - 1])
        invariant
            n == v.len(),
            a <= b <= n,
            t == v@.skip(a as int),
            trailing_ws(t) == (n - b) + trailing_ws(v@.subrange(a as int, b as int)),
        decreases b - a,
    {
        assert(v@.subrange(a as int, b as int).drop_last() =~= v@.subrange(a as int, b - 1));
        b = b - 1;
    }
    assert(trailing_ws(v@.subrange(a as int, b as int)) == 0);
    assert(v@.subrange(a as int, b as int) =~= trimmed(v@));
    string_of_range(v, a, b)
}

/// Whether `c` is Unicode white space.
pub fn is_ws(c: char) -> (b: bool)
    ensures
        b == is_white_space(c),
{
    let u = c as u32;
    (0x9 <= u && u <= 0xD) || u == 0x20 || u == 0x85 || u == 0xA0 || u == 0x1680
        || (0x2000 <= u && u <= 0x200A) || u == 0x2028 || u == 0x2029 || u == 0x202F
        || u == 0x205F || u == 0x3000
}

/// `msg` when it fits in `max` bytes; otherwise its first `keep` bytes
/// followed by `suffix` (what `String::truncate` and `push_str` give).
pub fn clip(msg: String, max: usize, keep: usize, suffix: &str) -> (r: String)
    requires
        utf8_len(msg@) > max ==> is_byte_boundary(msg@, keep as int),
    ensures
        r@ == clipped(msg@, max as int, keep as int, suffix@),
{
    let v = chars_of(msg.as_str());
    if longer_than(&v, max) {
        let k = prefix_chars(&v, keep);
        let mut r = string_of_range(&v, 0, k);
        push_str(&mut r, suffix);
        assert(v@.subrange(0, k as int) =~= v@.take(k as int));
        r
    } else {
        msg
    }
}

} // verus!
