//! Text as sequences of characters: the operations the rest of the library
//! needs, each with the exact sequence it yields.

use vstd::prelude::*;

verus! {

// ------------------------------------------------------------- conversions

/// The characters of a string, in order.
pub fn chars_of(s: &str) -> (v: Vec<char>)
    ensures
        v@ == s@,
{
    let mut v: Vec<char> = Vec::new();
    for c in it: s.chars()
        invariant
            v@ == s@.take(it.index() as int),
            it.seq() == s@,
    {
        v.push(c);
        assert(s@.take(it.index() as int + 1) =~= s@.take(it.index() as int).push(c));
    }
    assert(s@.take(s@.len() as int) =~= s@);
    v
}

/// The characters `from..to` of `v`, as a string.
pub fn text_between(v: &Vec<char>, from: usize, to: usize) -> (r: String)
    requires
        from <= to <= v@.len(),
    ensures
        r@ == v@.subrange(from as int, to as int),
{
    let mut r: String = String::new();
    let mut i: usize = from;
    assert(v@.subrange(from as int, from as int) =~= Seq::<char>::empty());
    while i < to
        invariant
            from <= i <= to <= v@.len(),
            r@ == v@.subrange(from as int, i as int),
        decreases to - i,
    {
        r.push(v[i]);
        assert(v@.subrange(from as int, i + 1) =~= v@.subrange(from as int, i as int).push(
            v@[i as int],
        ));
        i = i + 1;
    }
    r
}

/// Whether two strings hold the same characters.
pub fn same(a: &str, b: &str) -> (r: bool)
    ensures
        r == (a@ == b@),
{
    a.to_owned() == b.to_owned()
}

// -------------------------------------------------------------- whitespace

/// The characters with the Unicode `White_Space` property.
pub open spec fn is_white(c: char) -> bool {
    ||| '\u{9}' <= c <= '\u{d}'
    ||| c == ' '
    ||| c == '\u{85}'
    ||| c == '\u{a0}'
    ||| c == '\u{1680}'
    ||| '\u{2000}' <= c <= '\u{200a}'
    ||| c == '\u{2028}'
    ||| c == '\u{2029}'
    ||| c == '\u{202f}'
    ||| c == '\u{205f}'
    ||| c == '\u{3000}'
}

/// Whether `c` is white space.
pub fn white(c: char) -> (r: bool)
    ensures
        r == is_white(c),
{
    ('\u{9}' <= c && c <= '\u{d}') || c == ' ' || c == '\u{85}' || c == '\u{a0}' || c == '\u{1680}'
        || ('\u{2000}' <= c && c <= '\u{200a}') || c == '\u{2028}' || c == '\u{2029}' || c
        == '\u{202f}' || c == '\u{205f}' || c == '\u{3000}'
}

/// `s` without its leading white space.
pub open spec fn trim_start(s: Seq<char>) -> Seq<char>
    decreases s.len(),
{
    if s.len() > 0 && is_white(s[0]) {
        trim_start(s.skip(1))
    } else {
        s
    }
}

/// `s` without its trailing white space.
pub open spec fn trim_end(s: Seq<char>) -> Seq<char>
    decreases s.len(),
{
    if s.len() > 0 && is_white(s.last()) {
        trim_end(s.drop_last())
    } else {
        s
    }
}

/// `s` without the white space around it.
pub open spec fn trimmed(s: Seq<char>) -> Seq<char> {
    trim_end(trim_start(s))
}

/// `v` without the white space around it.
pub fn trim_chars(v: &Vec<char>) -> (r: String)
    ensures
        r@ == trimmed(v@),
{
    let mut i: usize = 0;
    assert(v@.skip(0) =~= v@);
    while i < v.len() && white(v[i])
        invariant
            i <= v@.len(),
            trim_start(v@) == trim_start(v@.skip(i as int)),
        decreases v@.len() - i,
    {
        assert(v@.skip(i as int).skip(1) =~= v@.skip(i + 1));
        i = i + 1;
    }
    assert(trim_start(v@) == v@.skip(i as int));
    let mut j: usize = v.len();
    assert(v@.subrange(i as int, j as int) =~= v@.skip(i as int));
    while j > i && white(v[j - 1])
        invariant
            i <= j <= v@.len(),
            trim_end(trim_start(v@)) == trim_end(v@.subrange(i as int, j as int)),
        decreases j,
    {
        assert(v@.subrange(i as int, j as int).drop_last() =~= v@.subrange(i as int, j - 1));
        j = j - 1;
    }
    text_between(v, i, j)
}

/// `s` without the white space around it.
pub fn trim(s: &str) -> (r: String)
    ensures
        r@ == trimmed(s@),
{
    trim_chars(&chars_of(s))
}

/// `s` without its trailing `c`s.
pub open spec fn trim_end_of(s: Seq<char>, c: char) -> Seq<char>
    decreases s.len(),
{
    if s.len() > 0 && s.last() == c {
        trim_end_of(s.drop_last(), c)
    } else {
        s
    }
}

/// `s` without its trailing `c`s.
pub fn trim_end_char(s: &str, c: char) -> (r: String)
    ensures
        r@ == trim_end_of(s@, c),
{
    let v = chars_of(s);
    let mut j: usize = v.len();
    assert(v@.subrange(0, j as int) =~= v@);
    while j > 0 && v[j - 1] == c
        invariant
            j <= v@.len(),
            trim_end_of(v@, c) == trim_end_of(v@.subrange(0, j as int), c),
        decreases j,
    {
        assert(v@.subrange(0, j as int).drop_last() =~= v@.subrange(0, j - 1));
        j = j - 1;
    }
    text_between(&v, 0, j)
}

// ------------------------------------------------------------------ digits

/// Whether `c` is one of `0` to `9`.
pub open spec fn is_digit(c: char) -> bool {
    '0' <= c <= '9'
}

/// The number that a decimal digit stands for.
pub open spec fn digit_value(c: char) -> nat {
    (c as int - '0' as int) as nat
}

/// The decimal digit for a number below ten.
pub open spec fn digit_char(n: nat) -> char {
    ('0' as int + n) as char
}

/// The number that a run of decimal digits stands for.
pub open spec fn digits_value(s: Seq<char>) -> nat
    decreases s.len(),
{
    if s.len() == 0 {
        0
    } else {
        10 * digits_value(s.drop_last()) + digit_value(s.last())
    }
}

/// Whether `s` is a non-empty run of decimal digits.
pub open spec fn all_digits(s: Seq<char>) -> bool {
    s.len() > 0 && forall|i: int| 0 <= i < s.len() ==> is_digit(#[trigger] s[i])
}

/// `n` in decimal.
pub open spec fn decimal_nat(n: nat) -> Seq<char>
    decreases n,
{
    if n < 10 {
        seq![digit_char(n)]
    } else {
        decimal_nat(n / 10).push(digit_char(n % 10))
    }
}

/// `n` in decimal, with a minus sign when negative.
pub open spec fn decimal(n: int) -> Seq<char> {
    if n < 0 {
        seq!['-'] + decimal_nat((-n) as nat)
    } else {
        decimal_nat(n as nat)
    }
}

/// Appends `n` in decimal.
pub fn push_nat(out: &mut String, n: u64)
    ensures
        final(out)@ == old(out)@ + decimal_nat(n as nat),
    decreases n,
{
    if n >= 10 {
        push_nat(out, n / 10);
    }
    let d: u8 = (n % 10) as u8;
    let c: char = (48u8 + d) as char;
    assert(c == digit_char((n % 10) as nat));
    out.push(c);
    assert(out@ =~= old(out)@ + decimal_nat(n as nat));
}

/// Appends `n` in decimal.
pub fn push_int(out: &mut String, n: i64)
    ensures
        final(out)@ == old(out)@ + decimal(n as int),
{
    if n < 0 {
        out.push('-');
        let m: u64 = (-(n + 1)) as u64 + 1;
        push_nat(out, m);
        assert(out@ =~= old(out)@ + decimal(n as int));
    } else {
        push_nat(out, n as u64);
    }
}

/// `n` in decimal.
pub fn int_text(n: i64) -> (r: String)
    ensures
        r@ == decimal(n as int),
{
    let mut r: String = String::new();
    push_int(&mut r, n);
    assert(r@ =~= decimal(n as int));
    r
}

/// A number in decimal is a run of digits that stands for it.
pub proof fn lemma_decimal_nat(n: nat)
    ensures
        all_digits(decimal_nat(n)),
        digits_value(decimal_nat(n)) == n,
    decreases n,
{
    if n < 10 {
        assert(decimal_nat(n).drop_last() =~= Seq::<char>::empty());
        assert(digits_value(Seq::<char>::empty()) == 0);
    } else {
        lemma_decimal_nat(n / 10);
        assert(decimal_nat(n).drop_last() =~= decimal_nat(n / 10));
    }
}

/// A longer run of digits stands for at least as large a number.
proof fn lemma_digits_grow(s: Seq<char>, i: int)
    requires
        0 <= i <= s.len(),
    ensures
        digits_value(s.take(i)) <= digits_value(s),
    decreases s.len() - i,
{
    if i < s.len() {
        lemma_digits_grow(s, i + 1);
        assert(s.take(i + 1).drop_last() =~= s.take(i));
    } else {
        assert(s.take(i) =~= s);
    }
}

/// The number that the characters `from..to` stand for, when they are a
/// non-empty run of digits and the number is at most `limit`.
pub fn digits_up_to(v: &Vec<char>, from: usize, to: usize, limit: u64) -> (r: Option<u64>)
    requires
        from <= to <= v@.len(),
    ensures
        r is Some <==> all_digits(v@.subrange(from as int, to as int)) && digits_value(
            v@.subrange(from as int, to as int),
        ) <= limit,
        r matches Some(n) ==> n == digits_value(v@.subrange(from as int, to as int)),
{
    let ghost s = v@.subrange(from as int, to as int);
    if from == to {
        return None;
    }
    let mut n: u64 = 0;
    let mut i: usize = from;
    assert(s.take(0) =~= Seq::<char>::empty());
    while i < to
        invariant
            from <= i <= to <= v@.len(),
            s == v@.subrange(from as int, to as int),
            n <= limit,
            n == digits_value(s.take(i - from)),
            forall|k: int| 0 <= k < i - from ==> is_digit(#[trigger] s[k]),
        decreases to - i,
    {
        let c = v[i];
        assert(s[i - from] == c);
        if !('0' <= c && c <= '9') {
            return None;
        }
        let d: u64 = (c as u32 - 48u32) as u64;
        let next: u128 = n as u128 * 10 + d as u128;
        assert(s.take(i - from + 1).drop_last() =~= s.take(i - from));
        assert(next == digits_value(s.take(i - from + 1)));
        if next > limit as u128 {
            proof {
                lemma_digits_grow(s, i - from + 1);
            }
            return None;
        }
        n = next as u64;
        i = i + 1;
    }
    assert(s.take(to - from) =~= s);
    Some(n)
}

/// The integer that `s` writes: an optional sign and a run of digits, with
/// the value inside `lo..=hi`. A minus sign is read only when `signed`.
pub open spec fn parsed_int(s: Seq<char>, signed: bool, lo: int, hi: int) -> Option<int> {
    let negative = signed && s.len() > 0 && s[0] == '-';
    let digits = if negative || (s.len() > 0 && s[0] == '+') {
        s.skip(1)
    } else {
        s
    };
    let value = if negative {
        -(digits_value(digits) as int)
    } else {
        digits_value(digits) as int
    };
    if all_digits(digits) && lo <= value <= hi {
        Some(value)
    } else {
        None
    }
}

/// `s` read as a signed 64-bit integer.
pub open spec fn parsed_i64(s: Seq<char>) -> Option<int> {
    parsed_int(s, true, i64::MIN as int, i64::MAX as int)
}

/// `s` read as an unsigned integer of at most `limit`.
pub open spec fn parsed_uint(s: Seq<char>, limit: u64) -> Option<int> {
    parsed_int(s, false, 0, limit as int)
}

/// Reads a signed 64-bit integer.
pub fn parse_i64(s: &str) -> (r: Option<i64>)
    ensures
        r is Some == parsed_i64(s@) is Some,
        r matches Some(n) ==> parsed_i64(s@) == Some(n as int),
{
    let v = chars_of(s);
    if v.len() > 0 && v[0] == '-' {
        assert(v@.subrange(1, v@.len() as int) =~= v@.skip(1));
        match digits_up_to(&v, 1, v.len(), 9223372036854775808u64) {
            Some(n) => {
                if n == 9223372036854775808u64 {
                    Some(i64::MIN)
                } else {
                    Some(-(n as i64))
                }
            },
            None => None,
        }
    } else {
        let from: usize = if v.len() > 0 && v[0] == '+' {
            1
        } else {
            0
        };
        assert(v@.subrange(from as int, v@.len() as int) =~= if from == 1 {
            v@.skip(1)
        } else {
            v@
        });
        match digits_up_to(&v, from, v.len(), i64::MAX as u64) {
            Some(n) => Some(n as i64),
            None => None,
        }
    }
}

/// Reads an unsigned integer of at most `limit`.
pub fn parse_uint(s: &str, limit: u64) -> (r: Option<u64>)
    ensures
        r is Some == parsed_uint(s@, limit) is Some,
        r matches Some(n) ==> parsed_uint(s@, limit) == Some(n as int),
{
    let v = chars_of(s);
    let from: usize = if v.len() > 0 && v[0] == '+' {
        1
    } else {
        0
    };
    assert(v@.subrange(from as int, v@.len() as int) =~= if from == 1 {
        v@.skip(1)
    } else {
        v@
    });
    digits_up_to(&v, from, v.len(), limit)
}

// ------------------------------------------------------ prefixes and search

/// Whether `pat` stands in `s` at position `at`.
pub open spec fn occurs_at(s: Seq<char>, pat: Seq<char>, at: int) -> bool {
    0 <= at && at + pat.len() <= s.len() && s.subrange(at, at + pat.len()) == pat
}

/// Whether `pat` stands somewhere in `s`.
pub open spec fn occurs(s: Seq<char>, pat: Seq<char>) -> bool {
    exists|at: int| occurs_at(s, pat, at)
}

/// Whether `pat` stands in `v` at position `at`.
pub fn found_at(v: &Vec<char>, pat: &Vec<char>, at: usize) -> (r: bool)
    requires
        at <= v@.len(),
    ensures
        r == occurs_at(v@, pat@, at as int),
{
    if v.len() - at < pat.len() {
        return false;
    }
    let n: usize = v.len();
    let mut i: usize = 0;
    while i < pat.len()
        invariant
            i <= pat@.len(),
            n == v@.len(),
            at + pat@.len() <= n,
            forall|k: int| 0 <= k < i ==> v@[at + k] == #[trigger] pat@[k],
        decreases pat@.len() - i,
    {
        if v[at + i] != pat[i] {
            assert(v@.subrange(at as int, at + pat@.len())[i as int] != pat@[i as int]);
            return false;
        }
        i = i + 1;
    }
    assert(v@.subrange(at as int, at + pat@.len()) =~= pat@);
    true
}

/// Whether `s` begins with `prefix`.
pub fn starts_with(s: &str, prefix: &str) -> (r: bool)
    ensures
        r == occurs_at(s@, prefix@, 0),
{
    found_at(&chars_of(s), &chars_of(prefix), 0)
}

/// Whether `pat` stands somewhere in `s`.
pub fn contains(s: &str, pat: &str) -> (r: bool)
    ensures
        r == occurs(s@, pat@),
{
    let v = chars_of(s);
    let p = chars_of(pat);
    let mut i: usize = 0;
    while i <= v.len()
        invariant
            v@ == s@,
            p@ == pat@,
            i <= v@.len() + 1,
            forall|k: int| 0 <= k < i ==> !occurs_at(s@, pat@, k),
        decreases v@.len() + 1 - i,
    {
        if found_at(&v, &p, i) {
            return true;
        }
        if i == v.len() {
            assert(forall|k: int| !occurs_at(s@, pat@, k));
            return false;
        }
        i = i + 1;
    }
    false
}

/// `s` with every occurrence of `pat`, taken from the left and not
/// overlapping, replaced by `with`.
pub open spec fn replaced(s: Seq<char>, pat: Seq<char>, with: Seq<char>) -> Seq<char>
    decreases s.len(),
{
    if s.len() == 0 || pat.len() == 0 {
        s
    } else if occurs_at(s, pat, 0) {
        with + replaced(s.skip(pat.len() as int), pat, with)
    } else {
        seq![s[0]] + replaced(s.skip(1), pat, with)
    }
}

/// `s` with every occurrence of `pat` replaced by `with`.
pub fn replace(s: &str, pat: &str, with: &str) -> (r: String)
    requires
        pat@.len() > 0,
    ensures
        r@ == replaced(s@, pat@, with@),
{
    let v = chars_of(s);
    let p = chars_of(pat);
    let mut r: String = String::new();
    let mut i: usize = 0;
    assert(v@.skip(0) =~= v@);
    assert(r@ + replaced(v@, p@, with@) =~= replaced(v@, p@, with@));
    while i < v.len()
        invariant
            v@ == s@,
            p@ == pat@,
            p@.len() > 0,
            i <= v@.len(),
            r@ + replaced(v@.skip(i as int), p@, with@) == replaced(s@, pat@, with@),
        decreases v@.len() - i,
    {
        let ghost rest = v@.skip(i as int);
        let ghost before = r@;
        if found_at(&v, &p, i) {
            assert(rest.subrange(0, p@.len() as int) =~= v@.subrange(i as int, i + p@.len()));
            assert(rest.skip(p@.len() as int) =~= v@.skip(i + p@.len()));
            r.append(with);
            i = i + p.len();
            assert(before + (with@ + replaced(v@.skip(i as int), p@, with@)) =~= before + with@
                + replaced(v@.skip(i as int), p@, with@));
        } else {
            assert(!occurs_at(rest, p@, 0)) by {
                if occurs_at(rest, p@, 0) {
                    assert(rest.subrange(0, p@.len() as int) =~= v@.subrange(
                        i as int,
                        i + p@.len(),
                    ));
                }
            }
            assert(rest.skip(1) =~= v@.skip(i + 1));
            r.push(v[i]);
            i = i + 1;
            assert(before + (seq![rest[0]] + replaced(v@.skip(i as int), p@, with@)) =~= r@
                + replaced(v@.skip(i as int), p@, with@));
        }
    }
    assert(v@.skip(i as int) =~= Seq::<char>::empty());
    assert(r@ + Seq::<char>::empty() =~= r@);
    r
}

/// A text without the first character of a pattern has nothing to replace.
pub proof fn lemma_nothing_to_replace(s: Seq<char>, pat: Seq<char>, with: Seq<char>)
    requires
        pat.len() > 0,
        forall|i: int| 0 <= i < s.len() ==> #[trigger] s[i] != pat[0],
    ensures
        replaced(s, pat, with) == s,
    decreases s.len(),
{
    if s.len() > 0 {
        if occurs_at(s, pat, 0) {
            assert(s.subrange(0, pat.len() as int)[0] == s[0]);
        }
        lemma_nothing_to_replace(s.skip(1), pat, with);
        assert(seq![s[0]] + s.skip(1) =~= s);
    }
}

/// What holds of every character kept, and of every character put in, holds
/// of every character of the result.
pub proof fn lemma_replaced_all(
    s: Seq<char>,
    pat: Seq<char>,
    with: Seq<char>,
    ok: spec_fn(char) -> bool,
)
    requires
        pat.len() == 1,
        forall|i: int| 0 <= i < s.len() ==> #[trigger] s[i] == pat[0] || ok(s[i]),
        forall|i: int| 0 <= i < with.len() ==> ok(#[trigger] with[i]),
    ensures
        forall|i: int|
            0 <= i < replaced(s, pat, with).len() ==> ok(#[trigger] replaced(s, pat, with)[i]),
    decreases s.len(),
{
    if s.len() > 0 {
        let rest = s.skip(1);
        assert forall|i: int| 0 <= i < rest.len() implies #[trigger] rest[i] == pat[0] || ok(
            rest[i],
        ) by {
            assert(rest[i] == s[i + 1]);
        }
        lemma_replaced_all(rest, pat, with, ok);
        if s[0] == pat[0] {
            assert(s.subrange(0, 1) =~= pat);
        }
        let all = replaced(s, pat, with);
        let after = replaced(rest, pat, with);
        let head = if occurs_at(s, pat, 0) {
            with
        } else {
            seq![s[0]]
        };
        assert(all == head + after);
        assert forall|i: int| 0 <= i < all.len() implies ok(#[trigger] all[i]) by {
            if i < head.len() {
                assert(all[i] == head[i]);
                assert(s[0] == pat[0] || ok(s[0]));
            } else {
                assert(all[i] == after[i - head.len()]);
            }
        }
    }
}

// -------------------------------------------------------- joining, padding

/// The views of a list of strings.
pub open spec fn views(parts: Seq<String>) -> Seq<Seq<char>> {
    parts.map_values(|p: String| p@)
}

/// The parts in order, with `sep` between each two.
pub open spec fn joined(parts: Seq<Seq<char>>, sep: Seq<char>) -> Seq<char>
    decreases parts.len(),
{
    if parts.len() == 0 {
        Seq::empty()
    } else if parts.len() == 1 {
        parts[0]
    } else {
        joined(parts.drop_last(), sep) + sep + parts.last()
    }
}

/// Joins the parts, with `sep` between each two.
pub fn join(parts: &Vec<String>, sep: &str) -> (r: String)
    ensures
        r@ == joined(views(parts@), sep@),
{
    let mut r: String = String::new();
    let mut i: usize = 0;
    while i < parts.len()
        invariant
            i <= parts@.len(),
            r@ == joined(views(parts@).take(i as int), sep@),
        decreases parts@.len() - i,
    {
        let ghost done = views(parts@).take(i as int);
        if i > 0 {
            r.append(sep);
        }
        r.append(parts[i].as_str());
        assert(views(parts@).take(i + 1).drop_last() =~= done);
        assert(r@ =~= joined(views(parts@).take(i + 1), sep@));
        i = i + 1;
    }
    assert(views(parts@).take(i as int) =~= views(parts@));
    r
}

/// `s` with spaces after it, up to `width` characters.
pub open spec fn padded(s: Seq<char>, width: nat) -> Seq<char> {
    if s.len() >= width {
        s
    } else {
        s + Seq::new((width - s.len()) as nat, |i: int| ' ')
    }
}

/// Appends `s`, left-aligned in a column of `width` characters.
pub fn push_padded(out: &mut String, s: &str, width: usize)
    ensures
        final(out)@ == old(out)@ + padded(s@, width as nat),
{
    out.append(s);
    let mut n: usize = s.unicode_len();
    assert(out@ =~= old(out)@ + (s@ + Seq::new(0, |i: int| ' ')));
    let ghost start = n;
    while n < width
        invariant
            start == s@.len(),
            start <= n,
            n == start || n <= width,
            out@ == old(out)@ + (s@ + Seq::new((n - start) as nat, |i: int| ' ')),
        decreases width - n,
    {
        out.push(' ');
        n = n + 1;
        assert(out@ =~= old(out)@ + (s@ + Seq::new((n - start) as nat, |i: int| ' ')));
    }
    assert(out@ =~= old(out)@ + padded(s@, width as nat));
}

// --------------------------------------------------------------- splitting

/// The position of the first `c` in `s`, or the length of `s` without one.
pub open spec fn index_of(s: Seq<char>, c: char) -> int
    decreases s.len(),
{
    if s.len() == 0 || s[0] == c {
        0
    } else {
        1 + index_of(s.skip(1), c)
    }
}

/// What `index_of` finds: the first `c`, or the end.
pub proof fn lemma_index_of(s: Seq<char>, c: char)
    ensures
        0 <= index_of(s, c) <= s.len(),
        index_of(s, c) < s.len() ==> s[index_of(s, c)] == c,
        forall|i: int| 0 <= i < index_of(s, c) ==> #[trigger] s[i] != c,
    decreases s.len(),
{
    if s.len() > 0 && s[0] != c {
        lemma_index_of(s.skip(1), c);
        assert forall|i: int| 0 <= i < index_of(s, c) implies #[trigger] s[i] != c by {
            if i > 0 {
                assert(s.skip(1)[i - 1] == s[i]);
            }
        }
    }
}

/// The position of the first `c` at or after `from`, or the length.
pub fn find(v: &Vec<char>, from: usize, c: char) -> (r: usize)
    requires
        from <= v@.len(),
    ensures
        from <= r <= v@.len(),
        r == from + index_of(v@.skip(from as int), c),
{
    let mut i: usize = from;
    while i < v.len() && v[i] != c
        invariant
            from <= i <= v@.len(),
            from + index_of(v@.skip(from as int), c) == i + index_of(v@.skip(i as int), c),
        decreases v@.len() - i,
    {
        assert(v@.skip(i as int).skip(1) =~= v@.skip(i + 1));
        i = i + 1;
    }
    i
}

/// The pieces of `s` between the `c`s.
pub open spec fn pieces(s: Seq<char>, c: char) -> Seq<Seq<char>>
    decreases s.len(),
    via pieces_shrink
{
    let at = index_of(s, c);
    if at < s.len() {
        seq![s.take(at)] + pieces(s.skip(at + 1), c)
    } else {
        seq![s]
    }
}

#[via_fn]
proof fn pieces_shrink(s: Seq<char>, c: char) {
    lemma_index_of(s, c);
}

/// The pieces of two texts with a `c` between them are those of the first and
/// those of the second.
pub proof fn lemma_pieces_of_both(a: Seq<char>, b: Seq<char>, c: char)
    ensures
        pieces(a + seq![c] + b, c) == pieces(a, c) + pieces(b, c),
    decreases a.len(),
{
    let whole = a + seq![c] + b;
    lemma_index_of(a, c);
    lemma_index_of(whole, c);
    let at = index_of(a, c);
    let found = index_of(whole, c);
    assert(whole[a.len() as int] == c);
    if at < a.len() {
        assert(whole[at] == c);
        assert(found == at) by {
            if found < at {
                assert(whole[found] == a[found]);
            }
        }
        lemma_pieces_of_both(a.skip(at + 1), b, c);
        assert(whole.take(at) =~= a.take(at));
        assert(whole.skip(at + 1) =~= a.skip(at + 1) + seq![c] + b);
        assert(pieces(whole, c) =~= pieces(a, c) + pieces(b, c));
    } else {
        assert(found == a.len()) by {
            if found < a.len() {
                assert(whole[found] == a[found]);
            }
        }
        assert(whole.take(found) =~= a);
        assert(whole.skip(found + 1) =~= b);
    }
}

/// The pieces of `s` between the `c`s.
pub fn split_on(s: &str, c: char) -> (r: Vec<String>)
    ensures
        views(r@) == pieces(s@, c),
{
    let v = chars_of(s);
    let mut r: Vec<String> = Vec::new();
    let mut i: usize = 0;
    assert(v@.skip(0) =~= v@);
    assert(views(r@) + pieces(v@, c) =~= pieces(v@, c));
    loop
        invariant
            v@ == s@,
            i <= v@.len(),
            views(r@) + pieces(v@.skip(i as int), c) == pieces(s@, c),
        decreases v@.len() - i,
    {
        let ghost rest = v@.skip(i as int);
        let ghost before = views(r@);
        let j = find(&v, i, c);
        let piece = text_between(&v, i, j);
        proof {
            lemma_index_of(rest, c);
        }
        if j < v.len() {
            assert(rest.take(j - i) =~= piece@);
            assert(rest.skip(j - i + 1) =~= v@.skip(j + 1));
            r.push(piece);
            assert(views(r@) =~= before.push(piece@));
            i = j + 1;
            assert(before + (seq![piece@] + pieces(v@.skip(i as int), c)) =~= views(r@) + pieces(
                v@.skip(i as int),
                c,
            ));
        } else {
            assert(rest =~= piece@);
            r.push(piece);
            assert(views(r@) =~= before + seq![piece@]);
            return r;
        }
    }
}

/// What stands before and after the first `c`, when there is one.
pub open spec fn cut(s: Seq<char>, c: char) -> Option<(Seq<char>, Seq<char>)> {
    let at = index_of(s, c);
    if at < s.len() {
        Some((s.take(at), s.skip(at + 1)))
    } else {
        None
    }
}

/// What stands before and after the first `c`, when there is one.
pub fn split_once(s: &str, c: char) -> (r: Option<(String, String)>)
    ensures
        r is Some == cut(s@, c) is Some,
        r matches Some(p) ==> cut(s@, c) == Some((p.0@, p.1@)),
{
    let v = chars_of(s);
    let j = find(&v, 0, c);
    assert(v@.skip(0) =~= v@);
    if j < v.len() {
        let n = v.len();
        assert(v@.subrange(0, j as int) =~= v@.take(j as int));
        assert(v@.subrange(j + 1, n as int) =~= v@.skip(j + 1));
        Some((text_between(&v, 0, j), text_between(&v, j + 1, n)))
    } else {
        None
    }
}

/// How many characters of `s` stand before its first white space.
pub open spec fn word_len(s: Seq<char>) -> int
    decreases s.len(),
{
    if s.len() == 0 || is_white(s[0]) {
        0
    } else {
        1 + word_len(s.skip(1))
    }
}

/// A word never reaches past its text.
proof fn lemma_word_len(s: Seq<char>)
    ensures
        0 <= word_len(s) <= s.len(),
    decreases s.len(),
{
    if s.len() > 0 && !is_white(s[0]) {
        lemma_word_len(s.skip(1));
    }
}

/// Trimming never makes a text longer, and leaves no leading white space.
proof fn lemma_trim_start(s: Seq<char>)
    ensures
        trim_start(s).len() <= s.len(),
        trim_start(s).len() > 0 ==> !is_white(trim_start(s)[0]),
    decreases s.len(),
{
    if s.len() > 0 && is_white(s[0]) {
        lemma_trim_start(s.skip(1));
    }
}

/// The words of `s`: its longest runs free of white space.
pub open spec fn words(s: Seq<char>) -> Seq<Seq<char>>
    decreases s.len(),
    via words_shrink
{
    let t = trim_start(s);
    if t.len() == 0 {
        Seq::empty()
    } else {
        seq![t.take(word_len(t))] + words(t.skip(word_len(t)))
    }
}

#[via_fn]
proof fn words_shrink(s: Seq<char>) {
    let t = trim_start(s);
    lemma_trim_start(s);
    lemma_word_len(t);
    if t.len() > 0 {
        lemma_word_len(t.skip(1));
    }
}

/// The words of `s`.
pub fn split_words(s: &str) -> (r: Vec<String>)
    ensures
        views(r@) == words(s@),
{
    let v = chars_of(s);
    let mut r: Vec<String> = Vec::new();
    let mut i: usize = 0;
    assert(v@.skip(0) =~= v@);
    assert(views(r@) + words(v@) =~= words(v@));
    loop
        invariant
            v@ == s@,
            i <= v@.len(),
            views(r@) + words(v@.skip(i as int)) == words(s@),
        decreases v@.len() - i,
    {
        let ghost before = views(r@);
        let ghost start = i;
        while i < v.len() && white(v[i])
            invariant
                start <= i <= v@.len(),
                trim_start(v@.skip(start as int)) == trim_start(v@.skip(i as int)),
            decreases v@.len() - i,
        {
            assert(v@.skip(i as int).skip(1) =~= v@.skip(i + 1));
            i = i + 1;
        }
        let ghost t = v@.skip(i as int);
        assert(trim_start(v@.skip(start as int)) == t);
        if i == v.len() {
            assert(views(r@) + Seq::<Seq<char>>::empty() =~= views(r@));
            return r;
        }
        let mut j: usize = i;
        while j < v.len() && !white(v[j])
            invariant
                i <= j <= v@.len(),
                word_len(v@.skip(i as int)) == j - i + word_len(v@.skip(j as int)),
            decreases v@.len() - j,
        {
            assert(v@.skip(j as int).skip(1) =~= v@.skip(j + 1));
            j = j + 1;
        }
        let word = text_between(&v, i, j);
        assert(t.take(j - i) =~= word@);
        assert(t.skip(j - i) =~= v@.skip(j as int));
        assert(j > i);
        r.push(word);
        assert(views(r@) =~= before.push(word@));
        assert(before + (seq![word@] + words(v@.skip(j as int))) =~= views(r@) + words(
            v@.skip(j as int),
        ));
        i = j;
    }
}

/// `s` without one carriage return at its end.
pub open spec fn without_cr(s: Seq<char>) -> Seq<char> {
    if s.len() > 0 && s.last() == '\r' {
        s.drop_last()
    } else {
        s
    }
}

/// The lines of `s`: a line feed, or a carriage return and a line feed, ends
/// a line; the last line needs no ending.
pub open spec fn lines_of(s: Seq<char>) -> Seq<Seq<char>>
    decreases s.len(),
    via lines_shrink
{
    let at = index_of(s, '\n');
    if s.len() == 0 {
        Seq::empty()
    } else if at < s.len() {
        seq![without_cr(s.take(at))] + lines_of(s.skip(at + 1))
    } else {
        seq![s]
    }
}

#[via_fn]
proof fn lines_shrink(s: Seq<char>) {
    lemma_index_of(s, '\n');
}

/// The lines of `s`.
pub fn split_lines(s: &str) -> (r: Vec<String>)
    ensures
        views(r@) == lines_of(s@),
{
    let v = chars_of(s);
    let mut r: Vec<String> = Vec::new();
    let mut i: usize = 0;
    assert(v@.skip(0) =~= v@);
    assert(views(r@) + lines_of(v@) =~= lines_of(v@));
    while i < v.len()
        invariant
            v@ == s@,
            i <= v@.len(),
            views(r@) + lines_of(v@.skip(i as int)) == lines_of(s@),
        decreases v@.len() - i,
    {
        let ghost rest = v@.skip(i as int);
        let ghost before = views(r@);
        let j = find(&v, i, '\n');
        proof {
            lemma_index_of(rest, '\n');
        }
        if j < v.len() {
            let end: usize = if j > i && v[j - 1] == '\r' {
                j - 1
            } else {
                j
            };
            let line = text_between(&v, i, end);
            assert(line@ =~= without_cr(rest.take(j - i)));
            assert(rest.skip(j - i + 1) =~= v@.skip(j + 1));
            r.push(line);
            assert(views(r@) =~= before.push(line@));
            i = j + 1;
            assert(before + (seq![line@] + lines_of(v@.skip(i as int))) =~= views(r@) + lines_of(
                v@.skip(i as int),
            ));
        } else {
            let line = text_between(&v, i, j);
            assert(line@ =~= rest);
            r.push(line);
            assert(views(r@) =~= before + seq![line@]);
            return r;
        }
    }
    assert(views(r@) + lines_of(v@.skip(i as int)) =~= views(r@));
    r
}

// -------------------------------------------------------------------- laws

/// Trimming a character off the end takes all of it there and nothing else.
pub proof fn law_end_is_trimmed(s: Seq<char>, c: char)
    ensures
        trim_end_of(s, c).is_prefix_of(s),
        trim_end_of(s, c).len() > 0 ==> trim_end_of(s, c).last() != c,
        forall|i: int| trim_end_of(s, c).len() <= i < s.len() ==> #[trigger] s[i] == c,
    decreases s.len(),
{
    if s.len() > 0 && s.last() == c {
        let rest = s.drop_last();
        law_end_is_trimmed(rest, c);
        assert forall|i: int| trim_end_of(s, c).len() <= i < s.len() implies #[trigger] s[i] == c by {
            if i < rest.len() {
                assert(rest[i] == s[i]);
            }
        }
        assert(trim_end_of(s, c) =~= s.take(trim_end_of(s, c).len() as int));
    } else {
        assert(s =~= s.take(s.len() as int));
    }
}

/// Trimming white space takes all of it at both ends and nothing else.
pub proof fn law_white_space_is_trimmed(before: Seq<char>, core: Seq<char>, after: Seq<char>)
    requires
        forall|i: int| 0 <= i < before.len() ==> is_white(#[trigger] before[i]),
        forall|i: int| 0 <= i < after.len() ==> is_white(#[trigger] after[i]),
        core.len() > 0 ==> !is_white(core[0]) && !is_white(core.last()),
    ensures
        trimmed(before + core + after) == core,
    decreases before.len() + after.len(),
{
    let whole = before + core + after;
    if core.len() == 0 && before.len() + after.len() > 0 {
        // White space only: all of it goes at the start.
        assert forall|i: int| 0 <= i < whole.len() implies is_white(#[trigger] whole[i]) by {
            if i < before.len() {
                assert(whole[i] == before[i]);
            } else {
                assert(whole[i] == after[i - before.len()]);
            }
        }
        lemma_all_white(whole);
    } else if before.len() > 0 {
        let rest = before.skip(1);
        assert forall|i: int| 0 <= i < rest.len() implies is_white(#[trigger] rest[i]) by {
            assert(rest[i] == before[i + 1]);
        }
        law_white_space_is_trimmed(rest, core, after);
        assert(whole[0] == before[0]);
        assert(whole.skip(1) =~= rest + core + after);
    } else if after.len() > 0 {
        let rest = after.drop_last();
        assert forall|i: int| 0 <= i < rest.len() implies is_white(#[trigger] rest[i]) by {
            assert(rest[i] == after[i]);
        }
        law_white_space_is_trimmed(before, core, rest);
        let shorter = before + core + rest;
        assert(whole[0] == core[0] && shorter[0] == core[0]);
        assert(whole.last() == after.last());
        assert(whole.drop_last() =~= shorter);
    } else {
        assert(whole =~= core);
    }
}

/// White space alone trims to nothing.
proof fn lemma_all_white(s: Seq<char>)
    requires
        forall|i: int| 0 <= i < s.len() ==> is_white(#[trigger] s[i]),
    ensures
        trimmed(s) == Seq::<char>::empty(),
    decreases s.len(),
{
    if s.len() > 0 {
        let rest = s.skip(1);
        assert forall|i: int| 0 <= i < rest.len() implies is_white(#[trigger] rest[i]) by {
            assert(rest[i] == s[i + 1]);
        }
        lemma_all_white(rest);
    } else {
        assert(s =~= Seq::empty());
    }
}

/// Blanks, tabs and line breaks are white space; letters, digits and the marks
/// of this library's texts are not.
pub proof fn law_what_is_white()
    ensures
        is_white(' ') && is_white('\t') && is_white('\n') && is_white('\r'),
        forall|c: char| '!' <= c <= '~' ==> !#[trigger] is_white(c),
{
}

/// A number that was written is read back, and nothing below or above the
/// bounds is read.
pub proof fn law_numbers_read_back(n: int, limit: u64)
    ensures
        i64::MIN <= n <= i64::MAX ==> parsed_i64(decimal(n)) == Some(n),
        0 <= n <= limit ==> parsed_uint(decimal(n), limit) == Some(n),
        n > limit ==> parsed_uint(decimal(n), limit) is None,
{
    let m: nat = if n < 0 {
        (-n) as nat
    } else {
        n as nat
    };
    lemma_decimal_nat(m);
    let digits = decimal_nat(m);
    assert(is_digit(digits[0]));
    if n < 0 {
        assert((seq!['-'] + digits).skip(1) =~= digits);
    }
}

/// Joining lists joins what they join to.
pub proof fn law_join_adds_up(a: Seq<Seq<char>>, b: Seq<Seq<char>>, sep: Seq<char>)
    requires
        a.len() > 0,
        b.len() > 0,
    ensures
        joined(a + b, sep) == joined(a, sep) + sep + joined(b, sep),
        joined(seq![a[0]], sep) == a[0],
    decreases b.len(),
{
    let all = a + b;
    assert(all.last() == b.last());
    assert(all.drop_last() =~= a + b.drop_last());
    if b.len() == 1 {
        assert(a + b.drop_last() =~= a);
        assert(b[0] == b.last());
    } else {
        law_join_adds_up(a, b.drop_last(), sep);
        assert(joined(all, sep) =~= joined(a, sep) + sep + joined(b, sep));
    }
}

/// A padded text is the text and then blanks, as wide as asked for or as the
/// text.
pub proof fn law_padding(s: Seq<char>, width: nat)
    ensures
        s.is_prefix_of(padded(s, width)),
        padded(s, width).len() == if s.len() > width {
            s.len()
        } else {
            width
        },
        forall|i: int| s.len() <= i < padded(s, width).len() ==> #[trigger] padded(s, width)[i]
            == ' ',
{
    assert(padded(s, width).take(s.len() as int) =~= s);
}

/// The pieces of a text, put together again, are the text, and none holds what
/// they were cut at.
pub proof fn law_pieces_make_up_the_text(s: Seq<char>, c: char)
    ensures
        pieces(s, c).len() > 0,
        joined(pieces(s, c), seq![c]) == s,
        forall|i: int, j: int|
            0 <= i < pieces(s, c).len() && 0 <= j < pieces(s, c)[i].len() ==> #[trigger] pieces(
                s,
                c,
            )[i][j] != c,
    decreases s.len(),
{
    lemma_index_of(s, c);
    let at = index_of(s, c);
    let all = pieces(s, c);
    if at < s.len() {
        let head = s.take(at);
        let rest = s.skip(at + 1);
        let tail = pieces(rest, c);
        law_pieces_make_up_the_text(rest, c);
        law_join_adds_up(seq![head], tail, seq![c]);
        assert(seq![head][0] == head);
        assert(head + seq![c] + rest =~= s);
        assert forall|i: int, j: int|
            0 <= i < all.len() && 0 <= j < all[i].len() implies #[trigger] all[i][j] != c by {
            if i > 0 {
                assert(all[i] == tail[i - 1]);
            } else {
                assert(all[i] == head);
            }
        }
    } else {
        assert(all =~= seq![s]);
    }
}

/// A text is cut at the first mark, which belongs to neither side; without one
/// there is nothing to cut.
pub proof fn law_cut_at_the_first(before: Seq<char>, after: Seq<char>, c: char)
    requires
        forall|i: int| 0 <= i < before.len() ==> #[trigger] before[i] != c,
    ensures
        cut(before + seq![c] + after, c) == Some((before, after)),
        cut(before, c) is None,
{
    let whole = before + seq![c] + after;
    lemma_index_of(whole, c);
    lemma_index_of(before, c);
    assert(whole[before.len() as int] == c);
    let at = index_of(whole, c);
    assert(at == before.len()) by {
        if at < before.len() {
            assert(whole[at] == before[at]);
        }
    }
    assert(whole.take(at) =~= before);
    assert(whole.skip(at + 1) =~= after);
}

/// A line ends at its break, and a carriage return before that is no part of it.
pub proof fn law_lines_end_at_breaks(line: Seq<char>, rest: Seq<char>)
    requires
        forall|i: int| 0 <= i < line.len() ==> #[trigger] line[i] != '\n',
    ensures
        lines_of(line + seq!['\n'] + rest) == seq![
            if line.len() > 0 && line.last() == '\r' {
                line.drop_last()
            } else {
                line
            },
        ] + lines_of(rest),
        line.len() > 0 ==> lines_of(line) == seq![line],
        lines_of(Seq::empty()).len() == 0,
{
    let whole = line + seq!['\n'] + rest;
    lemma_index_of(whole, '\n');
    lemma_index_of(line, '\n');
    assert(whole[line.len() as int] == '\n');
    let at = index_of(whole, '\n');
    assert(at == line.len()) by {
        if at < line.len() {
            assert(whole[at] == line[at]);
        }
    }
    assert(whole.take(at) =~= line);
    assert(whole.skip(at + 1) =~= rest);
}

/// Words are what white space parts: a word before white space comes first, and
/// leading white space does not count.
pub proof fn law_words_are_parted_by_white_space(word: Seq<char>, gap: char, rest: Seq<char>)
    requires
        is_white(gap),
        forall|i: int| 0 <= i < word.len() ==> !is_white(#[trigger] word[i]),
    ensures
        word.len() > 0 ==> words(word + seq![gap] + rest) == seq![word] + words(rest),
        word.len() > 0 ==> words(word) == seq![word],
        words(seq![gap] + rest) == words(rest),
        words(Seq::empty()).len() == 0,
{
    let gapped = seq![gap] + rest;
    assert(gapped.skip(1) =~= rest);
    assert(trim_start(gapped) == trim_start(rest));
    assert(words(gapped) == words(rest));
    if word.len() > 0 {
        let whole = word + seq![gap] + rest;
        assert(whole[0] == word[0]);
        assert(whole[word.len() as int] == gap);
        assert(word =~= whole.take(word.len() as int));
        lemma_word_before(word, whole);
        assert(trim_start(whole) == whole);
        assert(words(whole) == seq![whole.take(word.len() as int)] + words(
            whole.skip(word.len() as int),
        ));
        lemma_word_before(word, word);
        assert(whole.take(word.len() as int) =~= word);
        assert(whole.skip(word.len() as int) =~= gapped);
        assert(word.take(word.len() as int) =~= word);
        assert(word.skip(word.len() as int) =~= Seq::empty());
        assert(seq![word] + words(Seq::<char>::empty()) =~= seq![word]);
    }
}

/// A word reaches to the first white space.
proof fn lemma_word_before(word: Seq<char>, s: Seq<char>)
    requires
        word.is_prefix_of(s),
        forall|i: int| 0 <= i < word.len() ==> !is_white(#[trigger] word[i]),
        word.len() < s.len() ==> is_white(s[word.len() as int]),
    ensures
        word_len(s) == word.len(),
    decreases word.len(),
{
    if word.len() > 0 {
        let rest = word.skip(1);
        assert(s[0] == word[0]);
        assert forall|i: int| 0 <= i < rest.len() implies !is_white(#[trigger] rest[i]) by {
            assert(rest[i] == word[i + 1]);
        }
        assert(rest =~= s.skip(1).take(rest.len() as int));
        if word.len() < s.len() {
            assert(s.skip(1)[rest.len() as int] == s[word.len() as int]);
        }
        lemma_word_before(rest, s.skip(1));
    }
}

/// Replacing a character replaces it in every part of a text.
pub proof fn law_replacing_a_character_adds_up(a: Seq<char>, b: Seq<char>, c: char, with: Seq<char>)
    ensures
        replaced(a + b, seq![c], with) == replaced(a, seq![c], with) + replaced(b, seq![c], with),
        replaced(seq![c], seq![c], with) == with,
    decreases a.len(),
{
    let pat = seq![c];
    let one = seq![c];
    assert(one.subrange(0, 1) =~= pat);
    assert(one.skip(1) =~= Seq::empty());
    assert(with + Seq::<char>::empty() =~= with);
    assert(replaced(one, pat, with) == with + replaced(one.skip(1), pat, with));
    if a.len() == 0 {
        assert(a + b =~= b);
        assert(replaced(a, pat, with) + replaced(b, pat, with) =~= replaced(b, pat, with));
    } else {
        let rest = a.skip(1);
        law_replacing_a_character_adds_up(rest, b, c, with);
        assert((a + b)[0] == a[0]);
        assert((a + b).subrange(0, 1) =~= a.subrange(0, 1));
        assert((a + b).skip(1) =~= rest + b);
        assert(replaced(a + b, pat, with) =~= replaced(a, pat, with) + replaced(b, pat, with));
    }
}

/// A number may have a sign and zeros before it, and nothing else in it.
pub proof fn law_how_numbers_are_written(digits: Seq<char>, limit: u64)
    requires
        all_digits(digits),
    ensures
        parsed_i64(seq!['+'] + digits) == parsed_i64(digits),
        digits_value(digits) <= i64::MAX ==> parsed_i64(digits) == Some(digits_value(digits) as int)
            && parsed_i64(seq!['-'] + digits) == Some(-(digits_value(digits) as int)),
        parsed_uint(seq!['+'] + digits, limit) == parsed_uint(digits, limit),
        parsed_uint(digits, limit) == if digits_value(digits) <= limit {
            Some(digits_value(digits) as int)
        } else {
            None
        },
        parsed_uint(seq!['-'] + digits, limit) is None,
        parsed_uint(Seq::empty(), limit) is None,
        parsed_i64(Seq::empty()) is None,
{
    assert(is_digit(digits[0]));
    assert((seq!['+'] + digits).skip(1) =~= digits);
    assert((seq!['-'] + digits).skip(1) =~= digits);
    let minus = seq!['-'] + digits;
    assert(!is_digit(minus[0]));
}

/// Each digit counts ten times what follows it.
pub proof fn law_digits_count(digits: Seq<char>, n: nat)
    requires
        n < 10,
    ensures
        digits_value(digits.push(digit_char(n))) == 10 * digits_value(digits) + n,
        digits_value(Seq::empty()) == 0,
        digit_char(0) == '0',
        digit_char(n) as int == '0' as int + n,
        is_digit(digit_char(n)),
        !is_digit('/') && !is_digit(':') && !is_digit('a') && !is_digit('-'),
{
    assert(digits.push(digit_char(n)).drop_last() =~= digits);
}

/// A text stands where it was put.
pub proof fn law_texts_stand_where_they_are_put(before: Seq<char>, s: Seq<char>, after: Seq<char>)
    ensures
        occurs_at(before + s + after, s, before.len() as int),
        occurs(before + s + after, s),
        forall|at: int|
            #[trigger] occurs_at(before, s, at) <==> 0 <= at && at + s.len() <= before.len() && (
            forall|i: int| 0 <= i < s.len() ==> before[at + i] == #[trigger] s[i]),
{
    let whole = before + s + after;
    let at = before.len() as int;
    assert(whole.subrange(at, at + s.len()) =~= s);
    assert(occurs_at(whole, s, at));
    assert forall|at: int| #[trigger]
        occurs_at(before, s, at) <==> 0 <= at && at + s.len() <= before.len() && (forall|i: int|
            0 <= i < s.len() ==> before[at + i] == #[trigger] s[i]) by {
        if 0 <= at && at + s.len() <= before.len() {
            let part = before.subrange(at, at + s.len());
            if forall|i: int| 0 <= i < s.len() ==> before[at + i] == #[trigger] s[i] {
                assert(part =~= s);
            }
            if part == s {
                assert forall|i: int| 0 <= i < s.len() implies before[at + i] == #[trigger] s[i] by {
                    assert(part[i] == before[at + i]);
                }
            }
        }
    }
}

/// A list of strings is what its strings hold, in order.
pub proof fn law_views_are_what_strings_hold(parts: Seq<String>, i: int)
    requires
        0 <= i < parts.len(),
    ensures
        views(parts).len() == parts.len(),
        views(parts)[i] == parts[i]@,
{
}

} // verus!
