//! Text as sequences of characters: comparing, trimming, splitting and
//! joining, and writing and reading numbers.

use vstd::prelude::*;

verus! {

/// `String::push` appends one character to the string.
pub assume_specification[ String::push ](s: &mut String, c: char)
    ensures
        final(s)@ == old(s)@.push(c),
;

/// The contents of a list of strings.
pub open spec fn views(parts: Seq<String>) -> Seq<Seq<char>> {
    parts.map_values(|s: String| s@)
}

/// The position of the first `c` in `s`, or the length of `s` if there is none.
pub open spec fn find(s: Seq<char>, c: char) -> nat
    decreases s.len(),
{
    if s.len() == 0 || s[0] == c {
        0
    } else {
        1 + find(s.drop_first(), c)
    }
}

/// The pieces of `s` between the occurrences of `c`; always at least one.
pub open spec fn split(s: Seq<char>, c: char) -> Seq<Seq<char>>
    decreases s.len(),
{
    if find(s, c) < s.len() {
        seq![s.take(find(s, c) as int)] + split(s.skip(find(s, c) as int + 1), c)
    } else {
        seq![s]
    }
}

/// The pieces with `sep` between each two neighbours.
pub open spec fn join(parts: Seq<Seq<char>>, sep: Seq<char>) -> Seq<char>
    decreases parts.len(),
{
    if parts.len() == 0 {
        Seq::empty()
    } else if parts.len() == 1 {
        parts[0]
    } else {
        parts[0] + sep + join(parts.drop_first(), sep)
    }
}

/// The Unicode `White_Space` property.
pub open spec fn white_space(c: char) -> bool {
    ||| '\u{9}' <= c <= '\u{d}'
    ||| c == ' '
    ||| c == '\u{85}'
    ||| c == '\u{a0}'
    ||| c == '\u{1680}'
    ||| '\u{2000}' <= c <= '\u{200a}'
    ||| c == '\u{2028}'
    ||| c == '\u{2029}'
    ||| c == '\u{202f}'
    ||| c == '\u{205f}'
    ||| c == '\u{3000}'
}

pub open spec fn trim_start(s: Seq<char>) -> Seq<char>
    decreases s.len(),
{
    if s.len() > 0 && white_space(s[0]) {
        trim_start(s.drop_first())
    } else {
        s
    }
}

pub open spec fn trim_end(s: Seq<char>) -> Seq<char>
    decreases s.len(),
{
    if s.len() > 0 && white_space(s.last()) {
        trim_end(s.drop_last())
    } else {
        s
    }
}

/// `s` without the white space at its two ends.
pub open spec fn trimmed(s: Seq<char>) -> Seq<char> {
    trim_end(trim_start(s))
}

/// `s` without the `c`s at its end.
pub open spec fn without_trailing(s: Seq<char>, c: char) -> Seq<char>
    decreases s.len(),
{
    if s.len() > 0 && s.last() == c {
        without_trailing(s.drop_last(), c)
    } else {
        s
    }
}

/// The characters of `s` before its first white space.
pub open spec fn first_word(s: Seq<char>) -> Seq<char>
    decreases s.len(),
{
    if s.len() == 0 || white_space(s[0]) {
        Seq::empty()
    } else {
        seq![s[0]] + first_word(s.drop_first())
    }
}

pub open spec fn lower_char(c: char) -> char {
    if 'A' <= c <= 'Z' {
        (c as u32 + 32) as char
    } else {
        c
    }
}

pub open spec fn upper_char(c: char) -> char {
    if 'a' <= c <= 'z' {
        (c as u32 - 32) as char
    } else {
        c
    }
}

/// `s` with its ASCII capitals made small.
pub open spec fn lower(s: Seq<char>) -> Seq<char> {
    s.map_values(|c: char| lower_char(c))
}

/// `s` with its ASCII small letters made capital.
pub open spec fn upper(s: Seq<char>) -> Seq<char> {
    s.map_values(|c: char| upper_char(c))
}

pub open spec fn digit_char(d: int) -> char {
    (48 + d) as char
}

pub open spec fn is_digit(c: char) -> bool {
    '0' <= c <= '9'
}

pub open spec fn digit_value(c: char) -> int {
    c as u32 - 48
}

/// The decimal notation of `n`, without leading zeros.
pub open spec fn decimal(n: nat) -> Seq<char>
    decreases n,
{
    if n < 10 {
        seq![digit_char(n as int)]
    } else {
        decimal(n / 10).push(digit_char((n % 10) as int))
    }
}

pub open spec fn is_digits(s: Seq<char>) -> bool {
    &&& s.len() > 0
    &&& forall|i: int| 0 <= i < s.len() ==> is_digit(#[trigger] s[i])
}

/// The number that a sequence of decimal digits denotes.
pub open spec fn digits_value(s: Seq<char>) -> int
    decreases s.len(),
{
    if s.len() == 0 {
        0
    } else {
        10 * digits_value(s.drop_last()) + digit_value(s.last())
    }
}

pub open spec fn strip_plus(s: Seq<char>) -> Seq<char> {
    if s.len() > 0 && s[0] == '+' {
        s.skip(1)
    } else {
        s
    }
}

/// The number up to `max` that `s` denotes: decimal digits, leading zeros
/// allowed, after at most one `+`.
pub open spec fn unsigned_number(s: Seq<char>, max: int) -> Option<int> {
    if is_digits(strip_plus(s)) && digits_value(strip_plus(s)) <= max {
        Some(digits_value(strip_plus(s)))
    } else {
        None
    }
}

pub open spec fn is_hex_digit(c: char) -> bool {
    is_digit(c) || 'a' <= c <= 'f' || 'A' <= c <= 'F'
}

pub open spec fn hex_digit_value(c: char) -> int {
    if is_digit(c) {
        c as u32 - 48
    } else if 'a' <= c <= 'f' {
        c as u32 - 87
    } else {
        c as u32 - 55
    }
}

pub open spec fn hex_char(d: int) -> char {
    if d < 10 {
        (48 + d) as char
    } else {
        (87 + d) as char
    }
}

/// The hexadecimal notation of `n`, in small letters, without leading zeros.
pub open spec fn hexadecimal(n: nat) -> Seq<char>
    decreases n,
{
    if n < 16 {
        seq![hex_char(n as int)]
    } else {
        hexadecimal(n / 16).push(hex_char((n % 16) as int))
    }
}

/// The number that a sequence of hexadecimal digits denotes.
pub open spec fn hex_value(s: Seq<char>) -> int
    decreases s.len(),
{
    if s.len() == 0 {
        0
    } else {
        16 * hex_value(s.drop_last()) + hex_digit_value(s.last())
    }
}

pub open spec fn is_hex(s: Seq<char>) -> bool {
    &&& s.len() > 0
    &&& forall|i: int| 0 <= i < s.len() ==> is_hex_digit(#[trigger] s[i])
}

// ---------------------------------------------------------------------------
// Facts about these functions

pub proof fn lemma_find(s: Seq<char>, c: char)
    ensures
        find(s, c) <= s.len(),
        forall|i: int| 0 <= i < find(s, c) ==> s[i] != c,
        find(s, c) < s.len() ==> s[find(s, c) as int] == c,
        find(s, c) < s.len() <==> s.contains(c),
    decreases s.len(),
{
    if s.len() > 0 && s[0] != c {
        let t = s.drop_first();
        lemma_find(t, c);
        assert forall|i: int| 0 <= i < find(s, c) implies s[i] != c by {
            if i > 0 {
                assert(s[i] == t[i - 1]);
            }
        }
        if find(s, c) < s.len() {
            assert(s[find(s, c) as int] == t[find(t, c) as int]);
        }
    }
    if s.contains(c) {
        let j = choose|j: int| 0 <= j < s.len() && s[j] == c;
        assert(find(s, c) <= j);
    }
}

pub proof fn lemma_find_is(s: Seq<char>, c: char, k: int)
    requires
        0 <= k <= s.len(),
        forall|i: int| 0 <= i < k ==> s[i] != c,
        k < s.len() ==> s[k] == c,
    ensures
        find(s, c) == k,
{
    lemma_find(s, c);
    if find(s, c) < k {
        assert(s[find(s, c) as int] != c);
    }
    if k < find(s, c) {
        assert(s[k] != c);
    }
}

/// Text without white space has none to trim.
pub proof fn lemma_trimmed(s: Seq<char>)
    requires
        forall|i: int| 0 <= i < s.len() ==> !white_space(#[trigger] s[i]),
    ensures
        trimmed(s) == s,
{
}

pub proof fn lemma_split_nonempty(s: Seq<char>, c: char)
    ensures
        split(s, c).len() >= 1,
    decreases s.len(),
{
    if find(s, c) < s.len() {
        lemma_split_nonempty(s.skip(find(s, c) as int + 1), c);
    }
}

/// Splitting what was joined gives the pieces back.
pub proof fn lemma_split_join(parts: Seq<Seq<char>>, c: char)
    requires
        parts.len() > 0,
        forall|i: int| 0 <= i < parts.len() ==> !(#[trigger] parts[i]).contains(c),
    ensures
        split(join(parts, seq![c]), c) == parts,
    decreases parts.len(),
{
    let s = join(parts, seq![c]);
    let p = parts[0];
    if parts.len() == 1 {
        lemma_find(p, c);
        assert(split(s, c) =~= parts);
    } else {
        let rest = parts.drop_first();
        let t = join(rest, seq![c]);
        assert(s =~= p + seq![c] + t);
        assert forall|i: int| 0 <= i < p.len() implies s[i] != c by {
            assert(s[i] == p[i]);
            assert(p.contains(p[i]));
        }
        lemma_find_is(s, c, p.len() as int);
        assert(s.take(p.len() as int) =~= p);
        assert(s.skip(p.len() as int + 1) =~= t);
        assert forall|i: int| 0 <= i < rest.len() implies !(#[trigger] rest[i]).contains(c) by {
            assert(rest[i] == parts[i + 1]);
        }
        lemma_split_join(rest, c);
        assert(split(s, c) =~= parts);
    }
}

/// Joining what was split gives the text back, and no piece holds the separator.
pub proof fn lemma_join_split(s: Seq<char>, c: char)
    ensures
        join(split(s, c), seq![c]) == s,
        forall|i: int| 0 <= i < split(s, c).len() ==> !(#[trigger] split(s, c)[i]).contains(c),
    decreases s.len(),
{
    lemma_find(s, c);
    let parts = split(s, c);
    if find(s, c) < s.len() {
        let i = find(s, c) as int;
        let t = s.skip(i + 1);
        lemma_join_split(t, c);
        lemma_split_nonempty(t, c);
        assert(parts.drop_first() =~= split(t, c));
        assert(s =~= s.take(i) + seq![c] + t);
        assert(join(parts, seq![c]) == s);
        assert forall|k: int| 0 <= k < parts.len() implies !(#[trigger] parts[k]).contains(c) by {
            if k > 0 {
                assert(parts[k] == split(t, c)[k - 1]);
            }
        }
    } else {
        assert(parts =~= seq![s]);
    }
}

pub proof fn lemma_digits_value_bounds(s: Seq<char>)
    requires
        forall|i: int| 0 <= i < s.len() ==> is_digit(#[trigger] s[i]),
    ensures
        digits_value(s) >= 0,
    decreases s.len(),
{
    if s.len() > 0 {
        lemma_digits_value_bounds(s.drop_last());
    }
}

pub proof fn lemma_digits_value_grows(s: Seq<char>, k: int)
    requires
        forall|i: int| 0 <= i < s.len() ==> is_digit(#[trigger] s[i]),
        0 <= k <= s.len(),
    ensures
        0 <= digits_value(s.take(k)) <= digits_value(s),
    decreases s.len() - k,
{
    lemma_digits_value_bounds(s.take(k));
    if k < s.len() {
        lemma_digits_value_grows(s, k + 1);
        assert(s.take(k + 1).drop_last() =~= s.take(k));
    } else {
        assert(s.take(k) =~= s);
    }
}

/// Decimal notation is read back as the number it was written from.
pub proof fn lemma_decimal(n: nat)
    ensures
        is_digits(decimal(n)),
        digits_value(decimal(n)) == n,
        decimal(n).len() > 1 ==> decimal(n)[0] != '0',
    decreases n,
{
    reveal_with_fuel(digits_value, 2);
    if n < 10 {
        assert(decimal(n).drop_last() =~= Seq::<char>::empty());
    } else {
        lemma_decimal(n / 10);
        let p = decimal(n / 10);
        assert(decimal(n).drop_last() =~= p);
        assert forall|i: int| 0 <= i < decimal(n).len() implies is_digit(
            #[trigger] decimal(n)[i],
        ) by {
            if i < p.len() {
                assert(decimal(n)[i] == p[i]);
            }
        }
        assert(decimal(n)[0] == p[0]);
        if p.len() == 1 {
            assert(p.drop_last() =~= Seq::<char>::empty());
            assert(digit_value(p[0]) == n / 10);
        }
    }
}

/// Digits without a leading zero are the decimal notation of their value.
pub proof fn lemma_canonical_decimal(s: Seq<char>)
    requires
        is_digits(s),
        s.len() > 1 ==> s[0] != '0',
    ensures
        digits_value(s) >= 0,
        s[0] != '0' ==> digits_value(s) >= 1,
        s == decimal(digits_value(s) as nat),
    decreases s.len(),
{
    reveal_with_fuel(digits_value, 2);
    let p = s.drop_last();
    if s.len() == 1 {
        assert(p =~= Seq::<char>::empty());
        assert(s =~= decimal(digits_value(s) as nat));
    } else {
        assert(p[0] == s[0]);
        lemma_canonical_decimal(p);
        let v = digits_value(p) as nat;
        let n = digits_value(s) as nat;
        assert(n / 10 == v && n % 10 == digit_value(s.last()));
        assert(decimal(n) == decimal(v).push(digit_char((n % 10) as int)));
        assert(s =~= p.push(s.last()));
    }
}

/// Hexadecimal notation is read back as the number it was written from.
pub proof fn lemma_hexadecimal(n: nat)
    ensures
        is_hex(hexadecimal(n)),
        hex_value(hexadecimal(n)) == n,
        n < 65536 ==> hexadecimal(n).len() <= 4,
    decreases n,
{
    reveal_with_fuel(hex_value, 2);
    if n < 16 {
        assert(hexadecimal(n).drop_last() =~= Seq::<char>::empty());
    } else {
        lemma_hexadecimal(n / 16);
        let p = hexadecimal(n / 16);
        assert(hexadecimal(n).drop_last() =~= p);
        assert forall|i: int| 0 <= i < hexadecimal(n).len() implies is_hex_digit(
            #[trigger] hexadecimal(n)[i],
        ) by {
            if i < p.len() {
                assert(hexadecimal(n)[i] == p[i]);
            }
        }
        if n < 65536 {
            lemma_hexadecimal_len(n, 4);
        }
    }
}

proof fn lemma_hexadecimal_len(n: nat, k: nat)
    requires
        1 <= k <= 4,
        n < 65536,
        k == 1 ==> n < 16,
        k == 2 ==> n < 256,
        k == 3 ==> n < 4096,
    ensures
        hexadecimal(n).len() <= k,
    decreases k,
{
    if n >= 16 {
        lemma_hexadecimal_len(n / 16, (k - 1) as nat);
    }
}

// ---------------------------------------------------------------------------
// Executable functions

/// The characters of a string.
pub fn to_chars(s: &str) -> (v: Vec<char>)
    ensures
        v@ == s@,
{
    let mut v: Vec<char> = Vec::new();
    for c in it: s.chars()
        invariant
            it.seq() == s@,
            v@ == s@.take(it.index()),
    {
        v.push(c);
    }
    v
}

/// The string made of the given characters.
pub fn from_chars(v: &[char]) -> (s: String)
    ensures
        s@ == v@,
{
    let mut s = String::new();
    let mut i: usize = 0;
    while i < v.len()
        invariant
            i <= v@.len(),
            s@ == v@.take(i as int),
        decreases v@.len() - i,
    {
        s.push(v[i]);
        i = i + 1;
    }
    s
}

/// The string made of the characters of `v` from `from` up to `to`.
pub fn from_range(v: &[char], from: usize, to: usize) -> (s: String)
    requires
        from <= to <= v@.len(),
    ensures
        s@ == v@.subrange(from as int, to as int),
{
    from_chars(vstd::slice::slice_subrange(v, from, to))
}

pub fn same_chars(a: &[char], b: &[char]) -> (r: bool)
    ensures
        r == (a@ == b@),
{
    if a.len() != b.len() {
        return false;
    }
    let mut i: usize = 0;
    while i < a.len()
        invariant
            i <= a@.len(),
            a@.len() == b@.len(),
            forall|k: int| 0 <= k < i ==> a@[k] == b@[k],
        decreases a@.len() - i,
    {
        if a[i] != b[i] {
            return false;
        }
        i = i + 1;
    }
    proof {
        assert(a@ =~= b@);
    }
    true
}

/// Whether two strings hold the same text.
pub fn same(a: &str, b: &str) -> (r: bool)
    ensures
        r == (a@ == b@),
{
    same_chars(&to_chars(a), &to_chars(b))
}

pub fn find_char(v: &[char], c: char) -> (i: usize)
    ensures
        i == find(v@, c),
        i <= v@.len(),
{
    let mut i: usize = 0;
    while i < v.len()
        invariant
            i <= v@.len(),
            forall|k: int| 0 <= k < i ==> v@[k] != c,
        decreases v@.len() - i,
    {
        if v[i] == c {
            proof {
                lemma_find_is(v@, c, i as int);
            }
            return i;
        }
        i = i + 1;
    }
    proof {
        lemma_find_is(v@, c, i as int);
    }
    i
}

/// Whether `c` occurs in `s`.
pub fn contains_char(s: &str, c: char) -> (r: bool)
    ensures
        r == s@.contains(c),
{
    let v = to_chars(s);
    proof {
        lemma_find(s@, c);
    }
    find_char(&v, c) < v.len()
}

/// The parts of `s` before and after its first `c`, if there is one.
pub fn split_once(s: &str, c: char) -> (r: Option<(String, String)>)
    ensures
        r is Some <==> s@.contains(c),
        r matches Some(p) ==> p.0@ == s@.take(find(s@, c) as int) && p.1@ == s@.skip(
            find(s@, c) as int + 1,
        ),
{
    let v = to_chars(s);
    let i = find_char(&v, c);
    proof {
        lemma_find(s@, c);
    }
    if i < v.len() {
        Some((from_range(&v, 0, i), from_range(&v, i + 1, v.len())))
    } else {
        None
    }
}

/// Whether `s` begins with `p`.
pub fn starts_with(s: &str, p: &str) -> (r: bool)
    ensures
        r == p@.is_prefix_of(s@),
{
    let v = to_chars(s);
    let w = to_chars(p);
    if w.len() > v.len() {
        return false;
    }
    same_chars(&w, vstd::slice::slice_subrange(&v, 0, w.len()))
}

pub fn is_white_space(c: char) -> (r: bool)
    ensures
        r == white_space(c),
{
    ('\u{9}' <= c && c <= '\u{d}') || c == ' ' || c == '\u{85}' || c == '\u{a0}' || c == '\u{1680}'
        || ('\u{2000}' <= c && c <= '\u{200a}') || c == '\u{2028}' || c == '\u{2029}' || c
        == '\u{202f}' || c == '\u{205f}' || c == '\u{3000}'
}

/// Whether `s` holds white space anywhere.
pub fn contains_white_space(s: &str) -> (r: bool)
    ensures
        r == exists|i: int| 0 <= i < s@.len() && white_space(#[trigger] s@[i]),
{
    let v = to_chars(s);
    let mut i: usize = 0;
    while i < v.len()
        invariant
            i <= v@.len(),
            v@ == s@,
            forall|k: int| 0 <= k < i ==> !white_space(#[trigger] s@[k]),
        decreases v@.len() - i,
    {
        if is_white_space(v[i]) {
            assert(white_space(s@[i as int]));
            return true;
        }
        i = i + 1;
    }
    false
}

/// Where `v` begins and ends without the white space at its two ends.
fn trim_range(v: &Vec<char>) -> (r: (usize, usize))
    ensures
        r.0 <= r.1 <= v@.len(),
        v@.subrange(r.0 as int, r.1 as int) == trimmed(v@),
{
    let mut lo: usize = 0;
    assert(v@.skip(0) =~= v@);
    while lo < v.len() && is_white_space(v[lo])
        invariant
            lo <= v@.len(),
            trim_start(v@) == trim_start(v@.skip(lo as int)),
        decreases v@.len() - lo,
    {
        assert(v@.skip(lo as int).drop_first() =~= v@.skip(lo + 1));
        lo = lo + 1;
    }
    let ghost t = v@.skip(lo as int);
    assert(trim_start(v@) == t);
    let mut hi: usize = v.len();
    assert(v@.subrange(lo as int, hi as int) =~= t);
    while hi > lo && is_white_space(v[hi - 1])
        invariant
            lo <= hi <= v@.len(),
            trim_end(t) == trim_end(v@.subrange(lo as int, hi as int)),
        decreases hi,
    {
        assert(v@.subrange(lo as int, hi as int).drop_last() =~= v@.subrange(lo as int, hi - 1));
        hi = hi - 1;
    }
    (lo, hi)
}

/// `s` without the white space at its two ends.
pub fn trim(s: &str) -> (r: String)
    ensures
        r@ == trimmed(s@),
{
    let v = to_chars(s);
    let (lo, hi) = trim_range(&v);
    from_range(&v, lo, hi)
}

/// `v` without the white space at its two ends.
pub fn trim_chars(v: &Vec<char>) -> (r: Vec<char>)
    ensures
        r@ == trimmed(v@),
{
    let (lo, hi) = trim_range(v);
    vstd::slice::slice_to_vec(vstd::slice::slice_subrange(v.as_slice(), lo, hi))
}

/// Splits `s` before its first white space and drops the white space at the
/// start of the second part.
pub fn split_word(s: &str) -> (r: (String, String))
    ensures
        r.0@ == first_word(s@),
        r.1@ == trim_start(s@.skip(first_word(s@).len() as int)),
{
    let v = to_chars(s);
    let mut end: usize = 0;
    assert(v@.skip(0) =~= v@);
    assert(v@.take(0) + first_word(v@) =~= first_word(v@));
    while end < v.len() && !is_white_space(v[end])
        invariant
            end <= v@.len(),
            first_word(v@) == v@.take(end as int) + first_word(v@.skip(end as int)),
        decreases v@.len() - end,
    {
        proof {
            let rest = v@.skip(end as int);
            assert(rest.drop_first() =~= v@.skip(end + 1));
            assert(v@.take(end + 1) =~= v@.take(end as int) + seq![rest[0]]);
            assert(v@.take(end as int) + (seq![rest[0]] + first_word(rest.drop_first()))
                =~= v@.take(end + 1) + first_word(rest.drop_first()));
        }
        end = end + 1;
    }
    let word = from_range(&v, 0, end);
    proof {
        assert(first_word(v@.skip(end as int)) =~= Seq::empty());
        assert(first_word(v@) =~= v@.subrange(0, end as int));
    }
    let mut lo: usize = end;
    while lo < v.len() && is_white_space(v[lo])
        invariant
            end <= lo <= v@.len(),
            trim_start(v@.skip(end as int)) == trim_start(v@.skip(lo as int)),
        decreases v@.len() - lo,
    {
        assert(v@.skip(lo as int).drop_first() =~= v@.skip(lo + 1));
        lo = lo + 1;
    }
    assert(v@.subrange(lo as int, v@.len() as int) =~= v@.skip(lo as int));
    (word, from_range(&v, lo, v.len()))
}

/// `s` without the `c`s at its end.
pub fn trim_end_char(s: &str, c: char) -> (r: String)
    ensures
        r@ == without_trailing(s@, c),
{
    let v = to_chars(s);
    let mut hi: usize = v.len();
    assert(v@.take(hi as int) =~= v@);
    while hi > 0 && v[hi - 1] == c
        invariant
            hi <= v@.len(),
            without_trailing(v@, c) == without_trailing(v@.take(hi as int), c),
        decreases hi,
    {
        assert(v@.take(hi as int).drop_last() =~= v@.take(hi - 1));
        hi = hi - 1;
    }
    assert(v@.subrange(0, hi as int) =~= v@.take(hi as int));
    from_range(&v, 0, hi)
}

/// `s` with its ASCII capitals made small.
pub fn to_lower(s: &str) -> (r: String)
    ensures
        r@ == lower(s@),
{
    let v = to_chars(s);
    let mut r = String::new();
    let mut i: usize = 0;
    while i < v.len()
        invariant
            i <= v@.len(),
            r@ == lower(v@.take(i as int)),
        decreases v@.len() - i,
    {
        let c = v[i];
        let d = if 'A' <= c && c <= 'Z' {
            (c as u8 + 32) as char
        } else {
            c
        };
        r.push(d);
        assert(lower(v@.take(i + 1)) =~= lower(v@.take(i as int)).push(lower_char(c)));
        i = i + 1;
    }
    assert(v@.take(i as int) =~= v@);
    r
}

/// `s` with its ASCII small letters made capital.
pub fn to_upper(s: &str) -> (r: String)
    ensures
        r@ == upper(s@),
{
    let v = to_chars(s);
    let mut r = String::new();
    let mut i: usize = 0;
    while i < v.len()
        invariant
            i <= v@.len(),
            r@ == upper(v@.take(i as int)),
        decreases v@.len() - i,
    {
        let c = v[i];
        let d = if 'a' <= c && c <= 'z' {
            (c as u8 - 32) as char
        } else {
            c
        };
        r.push(d);
        assert(upper(v@.take(i + 1)) =~= upper(v@.take(i as int)).push(upper_char(c)));
        i = i + 1;
    }
    assert(v@.take(i as int) =~= v@);
    r
}

/// Whether two strings are the same but for the case of ASCII letters.
pub fn same_ignoring_case(a: &str, b: &str) -> (r: bool)
    ensures
        r == (lower(a@) == lower(b@)),
{
    same(to_lower(a).as_str(), to_lower(b).as_str())
}

/// The pieces of `v` between the occurrences of `c`.
pub fn split_chars(v: &[char], c: char) -> (parts: Vec<Vec<char>>)
    ensures
        parts@.map_values(|p: Vec<char>| p@) == split(v@, c),
{
    let mut parts: Vec<Vec<char>> = Vec::new();
    let mut start: usize = 0;
    let ghost f = |p: Vec<char>| p@;
    assert(v@.skip(0) =~= v@);
    assert(parts@.map_values(f) + split(v@, c) =~= split(v@, c));
    loop
        invariant
            start <= v@.len(),
            f == (|p: Vec<char>| p@),
            parts@.map_values(f) + split(v@.skip(start as int), c) == split(v@, c),
        decreases v@.len() - start,
    {
        let rest = vstd::slice::slice_subrange(v, start, v.len());
        let i = find_char(rest, c);
        let ghost before = parts@.map_values(f);
        assert(rest@ == v@.skip(start as int));
        let piece = vstd::slice::slice_to_vec(vstd::slice::slice_subrange(rest, 0, i));
        let ghost p = piece@;
        parts.push(piece);
        assert(parts@.map_values(f) =~= before.push(p));
        if i < rest.len() {
            assert(rest@.skip(i + 1) =~= v@.skip(start + i + 1));
            assert(rest@.take(i as int) =~= p);
            assert(before + split(rest@, c) =~= before.push(p) + split(v@.skip(start + i + 1), c));
            start = start + i + 1;
        } else {
            assert(p =~= rest@);
            assert(before + seq![p] =~= before.push(p));
            return parts;
        }
    }
}

/// The strings with `sep` between each two neighbours.
pub fn join_strings(parts: &Vec<String>, sep: &str) -> (r: String)
    ensures
        r@ == join(views(parts@), sep@),
{
    let mut r = String::new();
    let ghost all = views(parts@);
    let mut i: usize = 0;
    assert(all.skip(0) =~= all);
    assert(Seq::<char>::empty() + join(all, sep@) =~= join(all, sep@));
    while i < parts.len()
        invariant
            i <= parts@.len(),
            all == views(parts@),
            r@ + join(all.skip(i as int), sep@) == join(all, sep@),
        decreases parts@.len() - i,
    {
        let ghost rest = all.skip(i as int);
        let ghost before = r@;
        r.append(parts[i].as_str());
        assert(rest[0] == parts@[i as int]@);
        assert(rest.drop_first() =~= all.skip(i + 1));
        if i + 1 < parts.len() {
            r.append(sep);
        }
        assert(before + join(rest, sep@) =~= r@ + join(all.skip(i + 1), sep@));
        i = i + 1;
    }
    assert(r@ + join(all.skip(i as int), sep@) =~= r@);
    r
}

/// The decimal notation of `n`.
pub fn decimal_text(n: u64) -> (r: String)
    ensures
        r@ == decimal(n as nat),
    decreases n,
{
    if n < 10 {
        let mut r = String::new();
        r.push((48 + n as u8) as char);
        assert(r@ =~= decimal(n as nat));
        r
    } else {
        let mut r = decimal_text(n / 10);
        r.push((48 + (n % 10) as u8) as char);
        r
    }
}

/// The decimal notation of a signed number.
pub open spec fn signed_decimal(n: int) -> Seq<char> {
    if n < 0 {
        seq!['-'] + decimal((-n) as nat)
    } else {
        decimal(n as nat)
    }
}

pub fn signed_decimal_text(n: i32) -> (r: String)
    ensures
        r@ == signed_decimal(n as int),
{
    if n < 0 {
        let mut r = String::new();
        r.push('-');
        r.append(decimal_text((-(n as i64)) as u64).as_str());
        assert(r@ =~= signed_decimal(n as int));
        r
    } else {
        decimal_text(n as u64)
    }
}

/// The number up to `max` that the digits denote, leading zeros allowed.
pub fn parse_digits(v: &[char], max: u64) -> (r: Option<u64>)
    ensures
        r matches Some(n) ==> is_digits(v@) && digits_value(v@) == n && n <= max,
        r is None ==> !is_digits(v@) || digits_value(v@) > max,
{
    if v.len() == 0 {
        return None;
    }
    let mut n: u128 = 0;
    let mut i: usize = 0;
    while i < v.len()
        invariant
            i <= v@.len(),
            n <= max,
            n == digits_value(v@.take(i as int)),
            forall|k: int| 0 <= k < i ==> is_digit(#[trigger] v@[k]),
        decreases v@.len() - i,
    {
        let c = v[i];
        if !('0' <= c && c <= '9') {
            assert(!is_digit(v@[i as int]));
            return None;
        }
        assert(v@.take(i + 1).drop_last() =~= v@.take(i as int));
        n = 10 * n + (c as u32 - 48) as u128;
        i = i + 1;
        if n > max as u128 {
            proof {
                if is_digits(v@) {
                    lemma_digits_value_grows(v@, i as int);
                }
            }
            return None;
        }
    }
    assert(v@.take(i as int) =~= v@);
    Some(n as u64)
}

/// The number up to `max` that a string denotes, after at most one `+`.
pub fn parse_unsigned(s: &str, max: u64) -> (r: Option<u64>)
    ensures
        match r {
            Some(n) => unsigned_number(s@, max as int) == Some(n as int),
            None => unsigned_number(s@, max as int) is None,
        },
{
    let v = to_chars(s);
    if v.len() > 0 && v[0] == '+' {
        parse_digits(vstd::slice::slice_subrange(&v, 1, v.len()), max)
    } else {
        parse_digits(&v, max)
    }
}

/// The hexadecimal notation of `n`.
pub fn hexadecimal_text(n: u16) -> (r: String)
    ensures
        r@ == hexadecimal(n as nat),
    decreases n,
{
    let d: u8 = (n % 16) as u8;
    let c = if d < 10 {
        (48 + d) as char
    } else {
        (87 + d) as char
    };
    if n < 16 {
        let mut r = String::new();
        r.push(c);
        assert(r@ =~= hexadecimal(n as nat));
        r
    } else {
        let mut r = hexadecimal_text(n / 16);
        r.push(c);
        r
    }
}

// ---------------------------------------------------------------------------
// Laws

/// White space is what Unicode calls so.
pub proof fn law_white_space_is_that_of_unicode(c: char)
    ensures
        white_space(c) <==> {
            let n = c as u32;
            n == 9 || n == 10 || n == 11 || n == 12 || n == 13 || n == 32 || n == 133 || n == 160
                || n == 5760 || 8192 <= n <= 8202 || n == 8232 || n == 8233 || n == 8239 || n
                == 8287 || n == 12288
        },
{
}

proof fn lemma_trim_start_is(s: Seq<char>) -> (k: int)
    ensures
        0 <= k <= s.len(),
        trim_start(s) == s.skip(k),
        forall|i: int| 0 <= i < k ==> white_space(#[trigger] s[i]),
        k < s.len() ==> !white_space(s[k]),
    decreases s.len(),
{
    if s.len() > 0 && white_space(s[0]) {
        let rest = s.drop_first();
        let k = lemma_trim_start_is(rest);
        assert(rest.skip(k) =~= s.skip(k + 1));
        assert forall|i: int| 0 <= i < k + 1 implies white_space(#[trigger] s[i]) by {
            if i > 0 {
                assert(s[i] == rest[i - 1]);
            }
        }
        if k < rest.len() {
            assert(s[k + 1] == rest[k]);
        }
        k + 1
    } else {
        assert(s.skip(0) =~= s);
        0
    }
}

proof fn lemma_trim_end_is(s: Seq<char>) -> (k: int)
    ensures
        0 <= k <= s.len(),
        trim_end(s) == s.take(k),
        forall|i: int| k <= i < s.len() ==> white_space(#[trigger] s[i]),
        k > 0 ==> !white_space(s[k - 1]),
    decreases s.len(),
{
    if s.len() > 0 && white_space(s.last()) {
        let rest = s.drop_last();
        let k = lemma_trim_end_is(rest);
        assert(rest.take(k) =~= s.take(k));
        assert forall|i: int| k <= i < s.len() implies white_space(#[trigger] s[i]) by {
            if i < rest.len() {
                assert(s[i] == rest[i]);
            }
        }
        k
    } else {
        assert(s.take(s.len() as int) =~= s);
        s.len() as int
    }
}

/// Trimming takes away white space and nothing else, at both ends and nowhere
/// else, until none is left there.
pub proof fn law_trimming_takes_the_white_space_at_the_ends(s: Seq<char>) -> (r: (int, int))
    ensures
        0 <= r.0 <= r.1 <= s.len(),
        trimmed(s) == s.subrange(r.0, r.1),
        forall|i: int| 0 <= i < r.0 ==> white_space(#[trigger] s[i]),
        forall|i: int| r.1 <= i < s.len() ==> white_space(#[trigger] s[i]),
        r.0 < r.1 ==> !white_space(s[r.0]) && !white_space(s[r.1 - 1]),
        trimmed(s).len() == 0 <==> forall|i: int| 0 <= i < s.len() ==> white_space(#[trigger] s[i]),
{
    let a = lemma_trim_start_is(s);
    let t = s.skip(a);
    let b = lemma_trim_end_is(t);
    assert(t.take(b) =~= s.subrange(a, a + b));
    assert forall|i: int| a + b <= i < s.len() implies white_space(#[trigger] s[i]) by {
        assert(s[i] == t[i - a]);
    }
    if b > 0 {
        assert(s[a + b - 1] == t[b - 1]);
        assert(a < s.len());
    }
    (a, a + b)
}

/// Letters of ASCII change their case and keep their place in the alphabet;
/// nothing else changes.
pub proof fn law_case_is_that_of_ascii(c: char)
    ensures
        'A' <= c <= 'Z' ==> lower_char(c) as u32 == c as u32 + 32,
        !('A' <= c <= 'Z') ==> lower_char(c) == c,
        'a' <= c <= 'z' ==> upper_char(c) as u32 == c as u32 - 32,
        !('a' <= c <= 'z') ==> upper_char(c) == c,
{
}

/// Decimal and hexadecimal digits are the usual ones.
pub proof fn law_digits_are_the_usual_ones(d: int)
    requires
        0 <= d < 16,
    ensures
        hex_char(d) == seq![
            '0', '1', '2', '3', '4', '5', '6', '7', '8', '9', 'a', 'b', 'c', 'd', 'e', 'f',
        ][d],
        d < 10 ==> digit_char(d) == hex_char(d),
        hex_digit_value(hex_char(d)) == d,
        d >= 10 ==> hex_digit_value(upper_char(hex_char(d))) == d,
        d < 10 ==> digit_value(digit_char(d)) == d,
        is_hex_digit(hex_char(d)),
        is_hex_digit(upper_char(hex_char(d))),
        is_digit(hex_char(d)) <==> d < 10,
{
}

/// A number is read from its digits in base ten, whatever zeros and one plus
/// sign stand before them, where it does not exceed the most that is allowed.
pub proof fn law_numbers_are_read_in_base_ten(n: nat, zeros: nat, max: int)
    ensures
        unsigned_number(decimal(n), max) == if n <= max {
            Some(n as int)
        } else {
            None
        },
        unsigned_number(seq!['+'] + decimal(n), max) == if n <= max {
            Some(n as int)
        } else {
            None
        },
        digits_value(Seq::new(zeros, |i: int| '0') + decimal(n)) == n,
        is_digits(Seq::new(zeros, |i: int| '0') + decimal(n)),
        unsigned_number(Seq::empty(), max) is None,
    decreases zeros,
{
    lemma_decimal(n);
    assert(decimal(n)[0] != '+') by {
        assert(is_digit(decimal(n)[0]));
    }
    assert((seq!['+'] + decimal(n)).skip(1) =~= decimal(n));
    let s = Seq::new(zeros, |i: int| '0') + decimal(n);
    lemma_leading_zeros(zeros, decimal(n));
    assert forall|i: int| 0 <= i < s.len() implies is_digit(#[trigger] s[i]) by {
        if i >= zeros {
            assert(s[i] == decimal(n)[i - zeros]);
        }
    }
}

proof fn lemma_leading_zeros(zeros: nat, s: Seq<char>)
    ensures
        digits_value(Seq::new(zeros, |i: int| '0') + s) == digits_value(s),
    decreases zeros, s.len(),
{
    let z = Seq::new(zeros, |i: int| '0');
    let whole = z + s;
    if s.len() > 0 {
        lemma_leading_zeros(zeros, s.drop_last());
        assert(whole.drop_last() =~= z + s.drop_last());
        assert(whole.last() == s.last());
    } else if zeros > 0 {
        let less = (zeros - 1) as nat;
        let y = Seq::new(less, |i: int| '0');
        lemma_leading_zeros(less, s);
        assert(whole.drop_last() =~= y + s);
        assert(whole.last() == '0');
    } else {
        assert(whole =~= s);
    }
}

/// What is left without some trailing character is what stands before the last
/// run of it.
pub proof fn law_trailing_characters_are_dropped(s: Seq<char>, c: char) -> (k: int)
    ensures
        0 <= k <= s.len(),
        without_trailing(s, c) == s.take(k),
        forall|i: int| k <= i < s.len() ==> s[i] == c,
        k > 0 ==> s[k - 1] != c,
    decreases s.len(),
{
    if s.len() > 0 && s.last() == c {
        let rest = s.drop_last();
        let k = law_trailing_characters_are_dropped(rest, c);
        assert(rest.take(k) =~= s.take(k));
        assert forall|i: int| k <= i < s.len() implies s[i] == c by {
            if i < rest.len() {
                assert(s[i] == rest[i]);
            }
        }
        k
    } else {
        assert(s.take(s.len() as int) =~= s);
        s.len() as int
    }
}

} // verus!
