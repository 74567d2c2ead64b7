//! Which texts are filters of the log.

use vstd::prelude::*;

use crate::text;

verus! {

/// Whether `tracing_subscriber` takes a text for a filter.
pub uninterp spec fn is_filter(level: Seq<char>) -> bool;

/// `tracing_subscriber::EnvFilter::try_new` reads the directives of a filter
/// from a text and nothing else. Which texts it takes is left to its name. It
/// finds its way through a directive without the white space around it, but
/// takes the parts from the directive as it stands. Where that cuts a character
/// in two it does not return, so it is not given such a directive.
#[verifier::external_body]
fn filter_is_valid(level: &str) -> (r: bool)
    requires
        readable_directives(level@),
    ensures
        r == is_filter(level@),
{
    tracing_subscriber::EnvFilter::try_new(level).is_ok()
}

// ---------------------------------------------------------------------------
// Directives

/// The bytes of a character in UTF-8.
pub open spec fn width(c: char) -> nat {
    if c <= '\u{7f}' {
        1
    } else if c <= '\u{7ff}' {
        2
    } else if c <= '\u{ffff}' {
        3
    } else {
        4
    }
}

/// The bytes of a text in UTF-8.
pub open spec fn bytes(s: Seq<char>) -> nat
    decreases s.len(),
{
    if s.len() == 0 {
        0
    } else {
        bytes(s.drop_last()) + width(s.last())
    }
}

/// Whether a text can be cut at a place, counted in bytes.
pub open spec fn is_boundary(s: Seq<char>, place: nat) -> bool {
    exists|n: int| 0 <= n <= s.len() && bytes(#[trigger] s.take(n)) == place
}

/// The first place at or behind `start` that holds `a` or `b`, or the length
/// where there is none.
pub open spec fn first_of(s: Seq<char>, start: int, a: char, b: char) -> int
    decreases s.len() - start,
{
    if start >= s.len() {
        s.len() as int
    } else if s[start] == a || s[start] == b {
        start
    } else {
        first_of(s, start + 1, a, b)
    }
}

/// Whether the directive can be cut at the place that a character of it has
/// once the white space around it is gone.
pub open spec fn cut_cleanly(directive: Seq<char>, n: int) -> bool {
    is_boundary(directive, bytes(text::trimmed(directive).take(n)))
}

pub open spec fn has_at(s: Seq<char>, n: int, c: char) -> bool {
    0 <= n < s.len() && s[n] == c
}

/// Whether a directive with white space before it can be read. One that is
/// only a target is taken whole. One with a span is cut at the brackets and
/// braces of the span. A level behind white space is never taken.
pub open spec fn readable_behind_space(directive: Seq<char>) -> bool {
    let inner = text::trimmed(directive);
    let open = first_of(inner, 0, '=', '[');
    let end = first_of(inner, open + 1, ']', '{');
    let close = first_of(inner, end + 1, '}', '}');
    ||| open == inner.len()
    ||| {
        &&& inner[open] == '['
        &&& end < inner.len()
        &&& cut_cleanly(directive, open)
        &&& cut_cleanly(directive, open + 1)
        &&& cut_cleanly(directive, end)
        &&& if inner[end] == ']' {
            !has_at(inner, end + 1, '=')
        } else {
            &&& close < inner.len()
            &&& cut_cleanly(directive, end + 1)
            &&& cut_cleanly(directive, close)
            &&& !has_at(inner, close + 2, '=')
        }
    }
}

/// Whether a directive can be read.
pub open spec fn readable_directive(directive: Seq<char>) -> bool {
    directive.len() > 0 && text::white_space(directive[0]) ==> ascii(directive)
        || readable_behind_space(directive)
}

pub open spec fn ascii(s: Seq<char>) -> bool {
    forall|i: int| 0 <= i < s.len() ==> #[trigger] s[i] <= '\u{7f}'
}

/// Whether each directive between the commas can be read.
pub open spec fn readable_directives(level: Seq<char>) -> bool {
    forall|i: int|
        0 <= i < text::split(level, ',').len() ==> readable_directive(
            #[trigger] text::split(level, ',')[i],
        )
}

/// Whether a text is a filter of the log.
pub open spec fn usable_filter(level: Seq<char>) -> bool {
    readable_directives(level) && is_filter(level)
}

// ---------------------------------------------------------------------------
// Reading

fn is_ascii(v: &Vec<char>) -> (r: bool)
    ensures
        r == ascii(v@),
{
    let mut i: usize = 0;
    while i < v.len()
        invariant
            i <= v@.len(),
            forall|k: int| 0 <= k < i ==> #[trigger] v@[k] <= '\u{7f}',
        decreases v@.len() - i,
    {
        if v[i] > '\u{7f}' {
            return false;
        }
        i += 1;
    }
    true
}

fn char_width(c: char) -> (r: u128)
    ensures
        r == width(c),
        1 <= r <= 4,
{
    if c <= '\u{7f}' {
        1
    } else if c <= '\u{7ff}' {
        2
    } else if c <= '\u{ffff}' {
        3
    } else {
        4
    }
}

/// The bytes before the character at `n`.
fn bytes_before(v: &Vec<char>, n: usize) -> (r: u128)
    requires
        n <= v@.len(),
    ensures
        r == bytes(v@.take(n as int)),
{
    let mut sum: u128 = 0;
    let mut i: usize = 0;
    while i < n
        invariant
            i <= n <= v@.len(),
            sum == bytes(v@.take(i as int)),
            sum <= 4 * i,
        decreases n - i,
    {
        assert(v@.take(i + 1).drop_last() =~= v@.take(i as int));
        sum = sum + char_width(v[i]);
        i += 1;
    }
    sum
}

proof fn lemma_bytes_grow(s: Seq<char>, a: int, b: int)
    requires
        0 <= a < b <= s.len(),
    ensures
        bytes(s.take(a)) < bytes(s.take(b)),
    decreases b,
{
    assert(s.take(b).drop_last() =~= s.take(b - 1));
    if a < b - 1 {
        lemma_bytes_grow(s, a, b - 1);
    }
}

fn can_be_cut(v: &Vec<char>, place: u128) -> (r: bool)
    ensures
        r == is_boundary(v@, place as nat),
{
    let mut sum: u128 = 0;
    let mut i: usize = 0;
    while i < v.len() && sum < place
        invariant
            i <= v@.len(),
            sum == bytes(v@.take(i as int)),
            sum <= 4 * i,
            forall|n: int| 0 <= n < i ==> bytes(#[trigger] v@.take(n)) < place,
        decreases v@.len() - i,
    {
        assert(v@.take(i + 1).drop_last() =~= v@.take(i as int));
        sum = sum + char_width(v[i]);
        i += 1;
    }
    proof {
        if sum != place {
            assert forall|n: int| 0 <= n <= v@.len() implies bytes(#[trigger] v@.take(n))
                != place by {
                if n > i {
                    lemma_bytes_grow(v@, i as int, n);
                }
            }
        }
    }
    sum == place
}

fn find_first(v: &Vec<char>, start: usize, a: char, b: char) -> (r: usize)
    requires
        start <= v@.len(),
    ensures
        r == first_of(v@, start as int, a, b),
        start <= r <= v@.len(),
{
    let mut i: usize = start;
    while i < v.len() && v[i] != a && v[i] != b
        invariant
            start <= i <= v@.len(),
            first_of(v@, start as int, a, b) == first_of(v@, i as int, a, b),
        decreases v@.len() - i,
    {
        i += 1;
    }
    i
}

fn is_readable_behind_space(directive: &Vec<char>) -> (r: bool)
    ensures
        r == readable_behind_space(directive@),
{
    let inner = text::trim_chars(directive);
    let open = find_first(&inner, 0, '=', '[');
    if open == inner.len() {
        return true;
    }
    if inner[open] != '[' {
        return false;
    }
    let end = find_first(&inner, open + 1, ']', '{');
    if end == inner.len() || !can_be_cut(directive, bytes_before(&inner, open)) || !can_be_cut(
        directive,
        bytes_before(&inner, open + 1),
    ) || !can_be_cut(directive, bytes_before(&inner, end)) {
        return false;
    }
    if inner[end] == ']' {
        return !(end + 1 < inner.len() && inner[end + 1] == '=');
    }
    let close = find_first(&inner, end + 1, '}', '}');
    close < inner.len() && can_be_cut(directive, bytes_before(&inner, end + 1)) && can_be_cut(
        directive,
        bytes_before(&inner, close),
    ) && !(inner.len() - close > 2 && inner[close + 2] == '=')
}

fn is_readable(directive: &Vec<char>) -> (r: bool)
    ensures
        r == readable_directive(directive@),
{
    directive.len() == 0 || !text::is_white_space(directive[0]) || is_ascii(directive)
        || is_readable_behind_space(directive)
}

/// Whether a text is a filter of the log. A directive that cannot be read makes
/// it none.
pub fn is_usable_filter(level: &str) -> (r: bool)
    ensures
        r == usable_filter(level@),
{
    let pieces = text::split_chars(text::to_chars(level).as_slice(), ',');
    let ghost split = text::split(level@, ',');
    proof {
        let views = pieces@.map_values(|p: Vec<char>| p@);
        assert(views == split);
        assert forall|k: int| 0 <= k < pieces@.len() implies (#[trigger] pieces@[k])@
            == split[k] by {
            assert(views[k] == pieces@[k]@);
        }
        assert(views.len() == pieces@.len());
    }
    let mut i: usize = 0;
    while i < pieces.len()
        invariant
            i <= pieces@.len() == split.len(),
            split == text::split(level@, ','),
            forall|k: int| 0 <= k < pieces@.len() ==> (#[trigger] pieces@[k])@ == split[k],
            forall|k: int| 0 <= k < i ==> readable_directive(#[trigger] split[k]),
        decreases pieces@.len() - i,
    {
        assert(pieces@[i as int]@ == split[i as int]);
        if !is_readable(&pieces[i]) {
            return false;
        }
        i += 1;
    }
    filter_is_valid(level)
}

// ---------------------------------------------------------------------------
// Laws

/// A filter whose directives have no white space before them, or are ASCII, or
/// hold none of the characters at which a directive is cut, is left to the
/// library of the log.
pub proof fn law_plain_directives_are_readable(directive: Seq<char>)
    ensures
        directive.len() == 0 || !text::white_space(directive[0]) ==> readable_directive(directive),
        (forall|i: int| 0 <= i < directive.len() ==> #[trigger] directive[i] <= '\u{7f}')
            ==> readable_directive(directive),
        !directive.contains('=') && !directive.contains('[') ==> readable_directive(directive),
{
    if forall|i: int| 0 <= i < directive.len() ==> #[trigger] directive[i] <= '\u{7f}' {
        assert(ascii(directive));
    }
    if !directive.contains('=') && !directive.contains('[') {
        let (a, b) = text::law_trimming_takes_the_white_space_at_the_ends(directive);
        let inner = text::trimmed(directive);
        assert forall|i: int| 0 <= i < inner.len() implies inner[i] != '=' && inner[i] != '[' by {
            assert(inner[i] == directive[a + i]);
            assert(directive.contains(directive[a + i]));
        }
        lemma_first_of_none(inner, 0, '=', '[');
    }
}

proof fn lemma_first_of_none(s: Seq<char>, start: int, a: char, b: char)
    requires
        0 <= start <= s.len(),
        forall|i: int| 0 <= i < s.len() ==> s[i] != a && s[i] != b,
    ensures
        first_of(s, start, a, b) == s.len(),
    decreases s.len() - start,
{
    if start < s.len() {
        lemma_first_of_none(s, start + 1, a, b);
    }
}

/// A text is a filter exactly when each of its directives can be read and the
/// library of the log takes it.
pub proof fn law_filters_are_those_of_the_library(level: Seq<char>)
    ensures
        usable_filter(level) <==> is_filter(level) && forall|i: int|
            0 <= i < text::split(level, ',').len() ==> readable_directive(
                #[trigger] text::split(level, ',')[i],
            ),
{
}

} // verus!
