//! Byte-level reading and writing: the tab that separates the two fields of a
//! line, surrounding white space, fields split on single spaces, and decimal
//! numbers.

use vstd::prelude::*;

verus! {

/// The byte that separates the fields of a line.
pub const TAB: u8 = 9;

/// The byte that separates the oriented node references of a path.
pub const SPACE: u8 = 32;

/// The byte that ends an output line.
pub const NEWLINE: u8 = 10;

/// The byte of the digit `0`; the other digits follow it in order.
pub const ZERO: u8 = 48;

/// The byte of the digit `9`.
pub const NINE: u8 = 57;

/// Whether `i` is the position of the first tab of `l`.
pub open spec fn is_first_tab(l: Seq<u8>, i: int) -> bool {
    &&& 0 <= i < l.len()
    &&& l[i] == TAB
    &&& forall|j: int| 0 <= j < i ==> l[j] != TAB
}

/// Whether `l` holds a tab at all.
pub open spec fn has_tab(l: Seq<u8>) -> bool {
    exists|i: int| 0 <= i < l.len() && l[i] == TAB
}

/// The position of the first tab of `l`, or `None` where `l` holds none.
pub fn find_tab(l: &[u8]) -> (r: Option<usize>)
    ensures
        match r {
            Some(i) => is_first_tab(l@, i as int),
            None => !has_tab(l@),
        },
{
    let mut i: usize = 0;
    while i < l.len()
        invariant
            i <= l.len(),
            forall|j: int| 0 <= j < i ==> l@[j] != TAB,
        decreases l.len() - i,
    {
        if l[i] == TAB {
            return Some(i);
        }
        i += 1;
    }
    None
}

/// White space as it surrounds a line: tab, line feed, vertical tab, form
/// feed, carriage return and space.
pub open spec fn is_space(b: u8) -> bool {
    (TAB <= b && b <= 13) || b == SPACE
}

/// `s` without the white space at its start.
pub open spec fn trim_start(s: Seq<u8>) -> Seq<u8>
    decreases s.len(),
{
    if s.len() > 0 && is_space(s[0]) {
        trim_start(s.drop_first())
    } else {
        s
    }
}

/// `s` without the white space at its end.
pub open spec fn trim_end(s: Seq<u8>) -> Seq<u8>
    decreases s.len(),
{
    if s.len() > 0 && is_space(s.last()) {
        trim_end(s.drop_last())
    } else {
        s
    }
}

/// `s` without the white space at either end.
pub open spec fn trimmed(s: Seq<u8>) -> Seq<u8> {
    trim_end(trim_start(s))
}

/// Where the white space at the start of `s` ends at `a`, the rest is what
/// is left without it.
proof fn lemma_trim_start(s: Seq<u8>, a: int)
    requires
        0 <= a <= s.len(),
        forall|j: int| 0 <= j < a ==> is_space(s[j]),
        a < s.len() ==> !is_space(s[a]),
    ensures
        trim_start(s) == s.subrange(a, s.len() as int),
    decreases a,
{
    if a > 0 {
        lemma_trim_start(s.drop_first(), a - 1);
    }
}

/// Where the white space at the end of `s` starts at `b`, what stands
/// before it is what is left without it.
proof fn lemma_trim_end(s: Seq<u8>, b: int)
    requires
        0 <= b <= s.len(),
        forall|j: int| b <= j < s.len() ==> is_space(s[j]),
        0 < b ==> !is_space(s[b - 1]),
    ensures
        trim_end(s) == s.subrange(0, b),
    decreases s.len() - b,
{
    if b < s.len() {
        lemma_trim_end(s.drop_last(), b);
    }
}

/// Whether `b` is white space.
fn is_space_byte(b: u8) -> (r: bool)
    ensures
        r == is_space(b),
{
    (TAB <= b && b <= 13) || b == SPACE
}

/// The part of `s` between the white space at its two ends.
pub fn trim(s: &[u8]) -> (r: &[u8])
    ensures
        r@ == trimmed(s@),
{
    let mut a: usize = 0;
    while a < s.len() && is_space_byte(s[a])
        invariant
            a <= s.len(),
            forall|j: int| 0 <= j < a ==> is_space(s@[j]),
        decreases s.len() - a,
    {
        a += 1;
    }
    let mut b: usize = s.len();
    while b > a && is_space_byte(s[b - 1])
        invariant
            a <= b <= s.len(),
            forall|j: int| b <= j < s.len() ==> is_space(s@[j]),
        decreases b,
    {
        b -= 1;
    }
    proof {
        lemma_trim_start(s@, a as int);
        let t = s@.subrange(a as int, s@.len() as int);
        lemma_trim_end(t, b - a);
    }
    vstd::slice::slice_subrange(s, a, b)
}

/// Whether `b` is a decimal digit.
pub open spec fn is_digit(b: u8) -> bool {
    ZERO <= b && b <= NINE
}

/// Whether every byte of `s` is a decimal digit.
pub open spec fn all_digits(s: Seq<u8>) -> bool {
    forall|i: int| 0 <= i < s.len() ==> is_digit(#[trigger] s[i])
}

/// The number that the digits of `s` write, the most significant first.
pub open spec fn decimal_value(s: Seq<u8>) -> nat
    decreases s.len(),
{
    if s.len() == 0 {
        0
    } else {
        decimal_value(s.drop_last()) * 10 + (s.last() - ZERO) as nat
    }
}

/// Whether `s` writes a node id: one digit or more, and nothing else, with a
/// value that fits the machine word.
pub open spec fn is_number(s: Seq<u8>) -> bool {
    &&& s.len() > 0
    &&& all_digits(s)
    &&& decimal_value(s) <= usize::MAX
}

/// With digits only, a prefix writes no more than the whole.
proof fn lemma_decimal_prefix(s: Seq<u8>, k: int)
    requires
        all_digits(s),
        0 <= k <= s.len(),
    ensures
        decimal_value(s.take(k)) <= decimal_value(s),
    decreases s.len() - k,
{
    if k == s.len() {
        assert(s.take(k) == s);
    } else {
        lemma_decimal_prefix(s.drop_last(), k);
        assert(s.drop_last().take(k) == s.take(k));
    }
}

/// The number that `s` writes, where `s` writes one.
pub fn parse_number(s: &[u8]) -> (r: Option<usize>)
    ensures
        r is Some <==> is_number(s@),
        r is Some ==> r.unwrap() == decimal_value(s@),
{
    if s.len() == 0 {
        return None;
    }
    let mut value: usize = 0;
    let mut i: usize = 0;
    while i < s.len()
        invariant
            i <= s.len(),
            all_digits(s@.take(i as int)),
            value == decimal_value(s@.take(i as int)),
        decreases s.len() - i,
    {
        let b = s[i];
        if b < ZERO || b > NINE {
            return None;
        }
        let d: usize = (b - ZERO) as usize;
        proof {
            assert(s@.take(i as int + 1).drop_last() == s@.take(i as int));
        }
        if value > (usize::MAX - d) / 10 {
            proof {
                if all_digits(s@) {
                    lemma_decimal_prefix(s@, i as int + 1);
                }
            }
            return None;
        }
        value = value * 10 + d;
        i += 1;
    }
    proof {
        assert(s@.take(i as int) == s@);
    }
    Some(value)
}

/// The digits that write `n`, the most significant first, with no leading zero.
pub open spec fn digits_of(n: nat) -> Seq<u8>
    decreases n,
{
    if n < 10 {
        seq![(ZERO + n) as u8]
    } else {
        digits_of(n / 10).push((ZERO + n % 10) as u8)
    }
}

/// What is written for a number reads back as that number.
pub proof fn lemma_digits_round_trip(n: nat)
    ensures
        digits_of(n).len() > 0,
        all_digits(digits_of(n)),
        decimal_value(digits_of(n)) == n,
    decreases n,
{
    if n < 10 {
        let s = digits_of(n);
        assert(decimal_value(s.drop_last()) == 0);
    } else {
        lemma_digits_round_trip(n / 10);
        let s = digits_of(n);
        assert(s.drop_last() == digits_of(n / 10));
    }
}

/// Appends the bytes of `s` to `out`.
pub fn push_bytes(out: &mut Vec<u8>, s: &[u8])
    ensures
        final(out)@ == old(out)@ + s@,
{
    let mut i: usize = 0;
    while i < s.len()
        invariant
            i <= s.len(),
            out@ == old(out)@ + s@.take(i as int),
        decreases s.len() - i,
    {
        out.push(s[i]);
        i += 1;
    }
}

/// Appends the decimal digits of `n` to `out`.
pub fn push_number(out: &mut Vec<u8>, n: u128)
    ensures
        final(out)@ == old(out)@ + digits_of(n as nat),
{
    let mut low_first: Vec<u8> = Vec::new();
    let mut m: u128 = n;
    while m >= 10
        invariant
            digits_of(n as nat) == digits_of(m as nat) + low_first@.reverse(),
        decreases m,
    {
        let d: u8 = (ZERO as u128 + m % 10) as u8;
        low_first.push(d);
        m = m / 10;
    }
    let d: u8 = (ZERO as u128 + m) as u8;
    low_first.push(d);
    let mut j: usize = low_first.len();
    while j > 0
        invariant
            j <= low_first@.len(),
            out@ == old(out)@ + low_first@.reverse().take(low_first@.len() - j),
        decreases j,
    {
        j -= 1;
        out.push(low_first[j]);
    }
}

/// Whether `a` and `b` hold the same bytes.
pub fn bytes_eq(a: &[u8], b: &[u8]) -> (r: bool)
    ensures
        r == (a@ == b@),
{
    if a.len() != b.len() {
        return false;
    }
    let mut i: usize = 0;
    while i < a.len()
        invariant
            i <= a.len() == b.len(),
            forall|j: int| 0 <= j < i ==> a@[j] == b@[j],
        decreases a.len() - i,
    {
        if a[i] != b[i] {
            return false;
        }
        i += 1;
    }
    assert(a@ =~= b@);
    true
}

/// The fields of `s` between the bytes `sep`: one more than there are
/// separators, so two separators side by side hold an empty field, and an
/// empty `s` is one empty field.
pub open spec fn split(s: Seq<u8>, sep: u8) -> Seq<Seq<u8>>
    decreases s.len(),
{
    if s.len() == 0 {
        seq![Seq::<u8>::empty()]
    } else {
        let init = split(s.drop_last(), sep);
        if s.last() == sep {
            init.push(Seq::<u8>::empty())
        } else {
            init.drop_last().push(init.last().push(s.last()))
        }
    }
}

/// Whether `spans` gives, in order, the places in `s` of the fields of `s`.
pub open spec fn spans_of(spans: Seq<(usize, usize)>, s: Seq<u8>, sep: u8) -> bool {
    &&& spans.len() == split(s, sep).len()
    &&& forall|k: int|
        0 <= k < spans.len() ==> {
            &&& (#[trigger] spans[k]).0 <= spans[k].1 <= s.len()
            &&& s.subrange(spans[k].0 as int, spans[k].1 as int) == split(s, sep)[k]
        }
}

/// The fields of `s` between the bytes `sep`, each as the half-open range of
/// its positions in `s`.
pub fn split_fields(s: &[u8], sep: u8) -> (spans: Vec<(usize, usize)>)
    ensures
        spans_of(spans@, s@, sep),
{
    let mut spans: Vec<(usize, usize)> = Vec::new();
    let mut start: usize = 0;
    let mut i: usize = 0;
    while i < s.len()
        invariant
            start <= i <= s.len(),
            spans@.len() + 1 == split(s@.take(i as int), sep).len(),
            forall|k: int|
                0 <= k < spans@.len() ==> {
                    &&& (#[trigger] spans@[k]).0 <= spans@[k].1 <= i
                    &&& s@.subrange(spans@[k].0 as int, spans@[k].1 as int) == split(
                        s@.take(i as int),
                        sep,
                    )[k]
                },
            split(s@.take(i as int), sep).last() == s@.subrange(start as int, i as int),
        decreases s.len() - i,
    {
        proof {
            assert(s@.take(i as int + 1).drop_last() == s@.take(i as int));
        }
        if s[i] == sep {
            spans.push((start, i));
            start = i + 1;
        }
        i += 1;
    }
    spans.push((start, i));
    proof {
        assert(s@.take(i as int) == s@);
    }
    spans
}

/// The position of the first tab of `s`, where `s` holds one.
pub open spec fn tab_index(s: Seq<u8>) -> int {
    choose|i: int| is_first_tab(s, i)
}

/// The first field of a line: what stands before the first tab, once the
/// white space around the line is taken off.
pub open spec fn head(line: Seq<u8>) -> Seq<u8> {
    let t = trimmed(line);
    t.subrange(0, tab_index(t))
}

/// The second field of a line: what stands behind the first tab, once the
/// white space around the line is taken off.
pub open spec fn tail(line: Seq<u8>) -> Seq<u8> {
    let t = trimmed(line);
    t.subrange(tab_index(t) + 1, t.len() as int)
}

/// Whether a line, without the white space around it, holds a tab.
pub open spec fn has_fields(line: Seq<u8>) -> bool {
    has_tab(trimmed(line))
}

/// Takes the white space off both ends of `line` and parts it at its first
/// tab. `None` where no tab is left.
pub fn split_line(line: &[u8]) -> (r: Option<(&[u8], &[u8])>)
    ensures
        r is Some <==> has_fields(line@),
        r is Some ==> r.unwrap().0@ == head(line@) && r.unwrap().1@ == tail(line@),
{
    let t = trim(line);
    let n = t.len();
    match find_tab(t) {
        Some(tab) => {
            Some((vstd::slice::slice_subrange(t, 0, tab), vstd::slice::slice_subrange(t, tab + 1, n)))
        },
        None => None,
    }
}

/// A copy of the bytes of `s`.
pub fn to_vec(s: &[u8]) -> (v: Vec<u8>)
    ensures
        v@ == s@,
{
    let mut v: Vec<u8> = Vec::new();
    push_bytes(&mut v, s);
    v
}

/// The lines as sequences of bytes.
pub open spec fn lines_of(lines: Seq<Vec<u8>>) -> Seq<Seq<u8>> {
    Seq::new(lines.len(), |k: int| lines[k]@)
}

} // verus!
