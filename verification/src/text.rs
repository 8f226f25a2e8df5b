//! Character-level text helpers shared by the line editor, the option parser
//! and the config and badge readers. Strings are handled as sequences of
//! Unicode scalar values, which is what `str@` denotes.

use vstd::prelude::*;

verus! {

/// Whether std's `char::is_alphanumeric` holds of `c` (Unicode `Alphabetic`
/// or `Numeric`).
pub uninterp spec fn is_alphanumeric(c: char) -> bool;

/// Whether `c` has the Unicode `White_Space` property, which is what std's
/// `char::is_whitespace` tests: tab through carriage return, space, next
/// line, no-break space, ogham space mark, the spaces from en quad to hair
/// space, the line and paragraph separators, narrow no-break space, medium
/// mathematical space and ideographic space.
pub open spec fn is_whitespace(c: char) -> bool {
    let u = c as u32;
    ||| 0x9 <= u <= 0xD
    ||| u == 0x20 || u == 0x85 || u == 0xA0 || u == 0x1680
    ||| 0x2000 <= u <= 0x200A
    ||| u == 0x2028 || u == 0x2029 || u == 0x202F || u == 0x205F || u == 0x3000
}

/// Whether `c` is in the general category `Cc`, which is what std's
/// `char::is_control` tests: the C0 controls, delete and the C1 controls.
pub open spec fn is_control(c: char) -> bool {
    let u = c as u32;
    u <= 0x1F || 0x7F <= u <= 0x9F
}

/// What std's `str::to_lowercase` returns for a string.
pub uninterp spec fn lowercase(s: Seq<char>) -> Seq<char>;

/// Calls `char::is_alphanumeric`; the result is named by `is_alphanumeric`.
#[verifier::external_body]
pub(crate) fn char_is_alphanumeric(c: char) -> (b: bool)
    ensures
        b == is_alphanumeric(c),
{
    c.is_alphanumeric()
}

/// Whether `c` is white space (see `is_whitespace`).
pub fn char_is_whitespace(c: char) -> (b: bool)
    ensures
        b == is_whitespace(c),
{
    let u = c as u32;
    (0x9 <= u && u <= 0xD)
        || u == 0x20 || u == 0x85 || u == 0xA0 || u == 0x1680
        || (0x2000 <= u && u <= 0x200A)
        || u == 0x2028 || u == 0x2029 || u == 0x202F || u == 0x205F || u == 0x3000
}

/// Whether `c` is a control character (see `is_control`).
pub fn char_is_control(c: char) -> (b: bool)
    ensures
        b == is_control(c),
{
    let u = c as u32;
    u <= 0x1F || (0x7F <= u && u <= 0x9F)
}

/// Calls `str::to_lowercase`; the result is named by `lowercase`.
#[verifier::external_body]
pub(crate) fn to_lowercase(s: &str) -> (r: String)
    ensures
        r@ == lowercase(s@),
{
    s.to_lowercase()
}

/// Calls `String::push`: the string afterwards is the old one with `c` at the
/// end, as std documents.
#[verifier::external_body]
pub(crate) fn push_char(s: &mut String, c: char)
    ensures
        final(s)@ == old(s)@.push(c),
{
    s.push(c)
}

/// The character for a decimal digit.
pub open spec fn digit_char(d: int) -> char {
    if d == 0 { '0' }
    else if d == 1 { '1' }
    else if d == 2 { '2' }
    else if d == 3 { '3' }
    else if d == 4 { '4' }
    else if d == 5 { '5' }
    else if d == 6 { '6' }
    else if d == 7 { '7' }
    else if d == 8 { '8' }
    else { '9' }
}

/// The decimal digits of a natural number, most significant first, without
/// leading zeros (`0` is the single digit `0`).
pub open spec fn digits(n: nat) -> Seq<char>
    decreases n,
{
    if n < 10 {
        seq![digit_char(n as int)]
    } else {
        digits(n / 10).push(digit_char((n % 10) as int))
    }
}

/// The decimal rendering of an integer, as `Display` writes it: a leading `-`
/// for a negative number, then its digits.
pub open spec fn decimal(i: int) -> Seq<char> {
    if i < 0 {
        seq!['-'] + digits((-i) as nat)
    } else {
        digits(i as nat)
    }
}

fn digit_of(d: u64) -> (c: char)
    requires
        d < 10,
    ensures
        c == digit_char(d as int),
{
    if d == 0 { '0' }
    else if d == 1 { '1' }
    else if d == 2 { '2' }
    else if d == 3 { '3' }
    else if d == 4 { '4' }
    else if d == 5 { '5' }
    else if d == 6 { '6' }
    else if d == 7 { '7' }
    else if d == 8 { '8' }
    else { '9' }
}

/// The decimal digits of `n`, most significant first.
fn digits_of(n: u64) -> (v: Vec<char>)
    ensures
        v@ == digits(n as nat),
{
    let mut v: Vec<char> = Vec::new();
    let mut rest: u64 = n;
    while rest >= 10
        invariant
            digits(n as nat) == digits(rest as nat) + v@,
        decreases rest,
    {
        let ghost before = v@;
        let d = digit_of(rest % 10);
        v.insert(0, d);
        assert(digits(rest as nat) == digits((rest / 10) as nat).push(d));
        assert(digits(rest as nat) + before =~= digits((rest / 10) as nat) + v@);
        rest = rest / 10;
    }
    let ghost tail = v@;
    v.insert(0, digit_of(rest));
    assert(digits(rest as nat) + tail =~= v@);
    v
}

/// The decimal rendering of `i`, as `i64`'s `Display` writes it.
pub fn i64_text(i: i64) -> (s: String)
    ensures
        s@ == decimal(i as int),
{
    if i < 0 {
        let magnitude: u64 = (-(i as i128)) as u64;
        let mut v = digits_of(magnitude);
        v.insert(0, '-');
        assert(v@ =~= seq!['-'] + digits((-(i as int)) as nat));
        string_of(v.as_slice())
    } else {
        let v = digits_of(i as u64);
        string_of(v.as_slice())
    }
}

/// The decimal rendering of `i`, as `u64`'s `Display` writes it.
pub fn u64_text(i: u64) -> (s: String)
    ensures
        s@ == decimal(i as int),
{
    let v = digits_of(i);
    string_of(v.as_slice())
}

/// The characters of a string, in order.
pub fn chars_of(s: &str) -> (v: Vec<char>)
    ensures
        v@ == s@,
{
    let mut v: Vec<char> = Vec::new();
    for c in it: s.chars()
        invariant
            v@ == it.seq().take(it.index() as int),
            it.seq() == s@,
    {
        v.push(c);
    }
    v
}

/// The string made of a run of characters.
pub fn string_of(cs: &[char]) -> (s: String)
    ensures
        s@ == cs@,
{
    let mut s = String::new();
    let mut i: usize = 0;
    while i < cs.len()
        invariant
            i <= cs.len(),
            s@ == cs@.take(i as int),
        decreases cs.len() - i,
    {
        push_char(&mut s, cs[i]);
        assert(cs@.take(i as int).push(cs@[i as int]) =~= cs@.take(i + 1));
        i += 1;
    }
    assert(cs@.take(cs.len() as int) =~= cs@);
    s
}

/// Whether two strings hold the same characters.
pub fn same_text(a: &str, b: &str) -> (r: bool)
    ensures
        r == (a@ == b@),
{
    let x = chars_of(a);
    let y = chars_of(b);
    if x.len() != y.len() {
        return false;
    }
    let mut i: usize = 0;
    while i < x.len()
        invariant
            x@ == a@,
            y@ == b@,
            x.len() == y.len(),
            i <= x.len(),
            forall|k: int| 0 <= k < i ==> x@[k] == y@[k],
        decreases x.len() - i,
    {
        if x[i] != y[i] {
            return false;
        }
        i += 1;
    }
    assert(x@ =~= y@);
    true
}

/// The pieces of `t` between occurrences of `sep`, as `str::split` yields
/// them: always one more piece than there are separators.
pub open spec fn split_on(t: Seq<char>, sep: char) -> Seq<Seq<char>>
    decreases t.len(),
{
    if t.len() == 0 {
        seq![seq![]]
    } else {
        let prev = split_on(t.drop_last(), sep);
        if t.last() == sep {
            prev.push(seq![])
        } else {
            prev.update(prev.len() - 1, prev.last().push(t.last()))
        }
    }
}

pub proof fn lemma_split_on_len(t: Seq<char>, sep: char)
    ensures
        split_on(t, sep).len() >= 1,
    decreases t.len(),
{
    if t.len() > 0 {
        lemma_split_on_len(t.drop_last(), sep);
    }
}

/// The contents of runs of characters.
pub open spec fn runs(v: Seq<Vec<char>>) -> Seq<Seq<char>> {
    v.map_values(|x: Vec<char>| x@)
}

/// The pieces of a run of characters between occurrences of `sep`.
pub fn split_chars(cs: &[char], sep: char) -> (r: Vec<Vec<char>>)
    ensures
        runs(r@) == split_on(cs@, sep),
{
    let mut parts: Vec<Vec<char>> = Vec::new();
    let mut cur: Vec<char> = Vec::new();
    let mut i: usize = 0;
    assert(cs@.take(0) =~= Seq::<char>::empty());
    while i < cs.len()
        invariant
            i <= cs.len(),
            runs(parts@).push(cur@) == split_on(cs@.take(i as int), sep),
        decreases cs.len() - i,
    {
        let ghost before = split_on(cs@.take(i as int), sep);
        assert(cs@.take(i + 1).drop_last() =~= cs@.take(i as int));
        assert(cs@.take(i + 1).last() == cs@[i as int]);
        proof { lemma_split_on_len(cs@.take(i as int), sep); }
        let c = cs[i];
        if c == sep {
            let done = cur;
            parts.push(done);
            cur = Vec::new();
            assert(runs(parts@).push(cur@) =~= before.push(seq![]));
        } else {
            cur.push(c);
            assert(runs(parts@).push(cur@) =~= before.update(before.len() - 1, before.last().push(c)));
        }
        i += 1;
    }
    assert(cs@.take(cs.len() as int) =~= cs@);
    let ghost before = runs(parts@);
    parts.push(cur);
    assert(runs(parts@) =~= before.push(cur@));
    parts
}

/// A line without the `\r` of a `\r\n` ending.
pub open spec fn strip_cr(l: Seq<char>) -> Seq<char> {
    if l.len() > 0 && l.last() == '\r' {
        l.drop_last()
    } else {
        l
    }
}

/// The lines of `t`, as `str::lines` yields them: split at `\n`, the `\r` of
/// a `\r\n` ending dropped, and no empty line after a final `\n`.
pub open spec fn lines_of(t: Seq<char>) -> Seq<Seq<char>> {
    let segs = split_on(t, '\n');
    let body = segs.drop_last().map_values(|l: Seq<char>| strip_cr(l));
    if segs.last().len() == 0 {
        body
    } else {
        body.push(segs.last())
    }
}

/// The lines of a run of characters.
pub fn lines(cs: &[char]) -> (r: Vec<Vec<char>>)
    ensures
        runs(r@) == lines_of(cs@),
{
    let segs = split_chars(cs, '\n');
    proof { lemma_split_on_len(cs@, '\n'); }
    let ghost sv = runs(segs@);
    let n = segs.len() - 1;
    let mut r: Vec<Vec<char>> = Vec::new();
    let mut k: usize = 0;
    while k < n
        invariant
            n + 1 == segs.len(),
            sv == runs(segs@),
            k <= n,
            runs(r@) == sv.take(k as int).map_values(|l: Seq<char>| strip_cr(l)),
        decreases n - k,
    {
        let seg = &segs[k];
        assert(seg@ == sv[k as int]);
        let mut line: Vec<char> = Vec::new();
        let len = if seg.len() > 0 && seg[seg.len() - 1] == '\r' { seg.len() - 1 } else { seg.len() };
        let mut j: usize = 0;
        while j < len
            invariant
                len <= seg.len(),
                j <= len,
                line@ == seg@.take(j as int),
            decreases len - j,
        {
            line.push(seg[j]);
            assert(seg@.take(j + 1) =~= seg@.take(j as int).push(seg@[j as int]));
            j += 1;
        }
        assert(line@ =~= strip_cr(seg@));
        let ghost before = runs(r@);
        let ghost lv = line@;
        r.push(line);
        assert(sv.take(k + 1) =~= sv.take(k as int).push(sv[k as int]));
        assert(runs(r@) =~= before.push(lv));
        assert(runs(r@) =~= sv.take(k + 1).map_values(|l: Seq<char>| strip_cr(l)));
        k += 1;
    }
    assert(sv.take(n as int) =~= sv.drop_last());
    if segs[n].len() > 0 {
        let mut last: Vec<char> = Vec::new();
        let mut j: usize = 0;
        while j < segs[n].len()
            invariant
                n + 1 == segs.len(),
                j <= segs[n as int]@.len(),
                last@ == segs[n as int]@.take(j as int),
            decreases segs[n as int]@.len() - j,
        {
            last.push(segs[n][j]);
            assert(segs[n as int]@.take(j + 1) =~= segs[n as int]@.take(j as int).push(segs[n as int]@[j as int]));
            j += 1;
        }
        assert(last@ =~= sv.last());
        let ghost before = runs(r@);
        let ghost lv = last@;
        r.push(last);
        assert(runs(r@) =~= before.push(lv));
    }
    r
}

/// `s` without leading whitespace.
pub open spec fn trim_start(s: Seq<char>) -> Seq<char>
    decreases s.len(),
{
    if s.len() > 0 && is_whitespace(s[0]) {
        trim_start(s.drop_first())
    } else {
        s
    }
}

/// `s` without trailing whitespace.
pub open spec fn trim_end(s: Seq<char>) -> Seq<char>
    decreases s.len(),
{
    if s.len() > 0 && is_whitespace(s.last()) {
        trim_end(s.drop_last())
    } else {
        s
    }
}

/// `s` without leading and trailing whitespace, as `str::trim` leaves it.
pub open spec fn trim(s: Seq<char>) -> Seq<char> {
    trim_end(trim_start(s))
}

/// A run of characters without leading and trailing whitespace.
pub fn trim_chars(cs: &[char]) -> (r: Vec<char>)
    ensures
        r@ == trim(cs@),
{
    let n = cs.len();
    let mut a: usize = 0;
    assert(cs@.skip(0) =~= cs@);
    while a < n && char_is_whitespace(cs[a])
        invariant
            n == cs.len(),
            a <= n,
            trim_start(cs@) == trim_start(cs@.skip(a as int)),
        decreases n - a,
    {
        assert(cs@.skip(a as int).drop_first() =~= cs@.skip(a + 1));
        a += 1;
    }
    let ghost t = cs@.skip(a as int);
    assert(trim_start(t) == t);
    let mut b: usize = n;
    assert(cs@.subrange(a as int, n as int) =~= t);
    while b > a && char_is_whitespace(cs[b - 1])
        invariant
            n == cs.len(),
            a <= b <= n,
            t == cs@.skip(a as int),
            trim_end(t) == trim_end(cs@.subrange(a as int, b as int)),
        decreases b - a,
    {
        assert(cs@.subrange(a as int, b as int).drop_last() =~= cs@.subrange(a as int, b - 1));
        b -= 1;
    }
    let ghost u = cs@.subrange(a as int, b as int);
    assert(trim_end(u) == u);
    let mut r: Vec<char> = Vec::new();
    let mut j: usize = a;
    while j < b
        invariant
            a <= j <= b <= n,
            n == cs.len(),
            r@ == cs@.subrange(a as int, j as int),
        decreases b - j,
    {
        r.push(cs[j]);
        assert(cs@.subrange(a as int, j + 1) =~= cs@.subrange(a as int, j as int).push(cs@[j as int]));
        j += 1;
    }
    r
}

} // verus!
