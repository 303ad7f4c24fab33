//! Text as sequences of characters: order, search and decimal numerals.

use vstd::prelude::*;
use vstd::string::StringExecFns;

verus! {

/// Whether `needle` occurs in `hay` at position `at`.
pub open spec fn occurs_at(needle: Seq<char>, hay: Seq<char>, at: int) -> bool {
    0 <= at && at + needle.len() <= hay.len() && hay.subrange(at, at + needle.len()) == needle
}

/// Whether `needle` occurs somewhere in `hay`.
pub open spec fn occurs_in(needle: Seq<char>, hay: Seq<char>) -> bool {
    exists|at: int| occurs_at(needle, hay, at)
}

/// `c` with the capital letters A to Z turned into small ones; every other
/// character stays as it is.
pub open spec fn fold_case(c: char) -> char {
    if 'A' <= c && c <= 'Z' {
        ((c as u8) + 32) as char
    } else {
        c
    }
}

/// `s` with every character folded by [`fold_case`].
pub open spec fn fold_text(s: Seq<char>) -> Seq<char> {
    s.map_values(|c: char| fold_case(c))
}

/// Whether `needle` occurs somewhere in `hay` when capital and small
/// letters from A to Z count as the same.
pub open spec fn occurs_ignoring_case(needle: Seq<char>, hay: Seq<char>) -> bool {
    occurs_in(fold_text(needle), fold_text(hay))
}

/// Whether `a` comes no later than `b` in dictionary order, character by
/// character.
pub open spec fn text_le(a: Seq<char>, b: Seq<char>) -> bool
    decreases a.len(),
{
    if a.len() == 0 {
        true
    } else if b.len() == 0 {
        false
    } else if a[0] != b[0] {
        a[0] < b[0]
    } else {
        text_le(a.drop_first(), b.drop_first())
    }
}

/// Of two texts one comes no later than the other.
pub proof fn lemma_text_le_total(a: Seq<char>, b: Seq<char>)
    ensures
        text_le(a, b) || text_le(b, a),
    decreases a.len(),
{
    if a.len() > 0 && b.len() > 0 && a[0] == b[0] {
        lemma_text_le_total(a.drop_first(), b.drop_first());
    }
}

/// A text that comes no later than a second, which comes no later than a
/// third, comes no later than the third.
pub proof fn lemma_text_le_transitive(a: Seq<char>, b: Seq<char>, c: Seq<char>)
    requires
        text_le(a, b),
        text_le(b, c),
    ensures
        text_le(a, c),
    decreases a.len(),
{
    if a.len() > 0 && b.len() > 0 && c.len() > 0 && a[0] == b[0] && b[0] == c[0] {
        lemma_text_le_transitive(a.drop_first(), b.drop_first(), c.drop_first());
    }
}

/// The character of the decimal digit `d`, for `d` from 0 to 9.
pub open spec fn digit(d: int) -> char {
    if d == 0 {
        '0'
    } else if d == 1 {
        '1'
    } else if d == 2 {
        '2'
    } else if d == 3 {
        '3'
    } else if d == 4 {
        '4'
    } else if d == 5 {
        '5'
    } else if d == 6 {
        '6'
    } else if d == 7 {
        '7'
    } else if d == 8 {
        '8'
    } else {
        '9'
    }
}

/// The decimal numeral of `n`, without leading zeros.
pub open spec fn natural_text(n: nat) -> Seq<char>
    decreases n,
{
    if n < 10 {
        seq![digit(n as int)]
    } else {
        natural_text(n / 10).push(digit((n % 10) as int))
    }
}

/// The decimal numeral of `n`, with a minus sign before it where `n` is
/// negative.
pub open spec fn decimal_text(n: int) -> Seq<char> {
    if n < 0 {
        seq!['-'] + natural_text((-n) as nat)
    } else {
        natural_text(n as nat)
    }
}

/// The numeral of the digit `d`.
fn digit_numeral(d: u32) -> (r: &'static str)
    requires
        d < 10,
    ensures
        r@ == seq![digit(d as int)],
{
    proof {
        reveal_strlit("0");
        reveal_strlit("1");
        reveal_strlit("2");
        reveal_strlit("3");
        reveal_strlit("4");
        reveal_strlit("5");
        reveal_strlit("6");
        reveal_strlit("7");
        reveal_strlit("8");
        reveal_strlit("9");
    }
    let r = if d == 0 {
        "0"
    } else if d == 1 {
        "1"
    } else if d == 2 {
        "2"
    } else if d == 3 {
        "3"
    } else if d == 4 {
        "4"
    } else if d == 5 {
        "5"
    } else if d == 6 {
        "6"
    } else if d == 7 {
        "7"
    } else if d == 8 {
        "8"
    } else {
        "9"
    };
    assert(r@ =~= seq![digit(d as int)]);
    r
}

/// The numeral of `n`.
fn natural_numeral(n: u32) -> (r: String)
    ensures
        r@ == natural_text(n as nat),
    decreases n,
{
    if n < 10 {
        digit_numeral(n).to_owned()
    } else {
        let mut r = natural_numeral(n / 10);
        r.append(digit_numeral(n % 10));
        assert(r@ =~= natural_text(n as nat));
        r
    }
}

/// The decimal numeral of `n`.
pub fn decimal(n: i32) -> (r: String)
    ensures
        r@ == decimal_text(n as int),
{
    if n < 0 {
        let magnitude: u32 = (-(n as i64)) as u32;
        let mut r = "-".to_owned();
        proof {
            reveal_strlit("-");
        }
        r.append(natural_numeral(magnitude).as_str());
        assert(r@ =~= decimal_text(n as int));
        r
    } else {
        natural_numeral(n as u32)
    }
}

/// `first`, then `second`, then `third`, in one string.
pub fn joined(first: &str, second: &str, third: &str) -> (r: String)
    ensures
        r@ == first@ + second@ + third@,
{
    let mut r = first.to_owned();
    r.append(second);
    r.append(third);
    r
}

/// Anything that occurs in a part of a text occurs in the text.
pub proof fn lemma_occurs_in_part(
    needle: Seq<char>,
    before: Seq<char>,
    part: Seq<char>,
    after: Seq<char>,
)
    requires
        occurs_in(needle, part),
    ensures
        occurs_in(needle, before + part + after),
{
    let at = choose|at: int| occurs_at(needle, part, at);
    let whole = before + part + after;
    assert(whole.subrange(before.len() + at, before.len() + at + needle.len()) =~= part.subrange(
        at,
        at + needle.len(),
    ));
    assert(occurs_at(needle, whole, before.len() + at));
}

/// A text occurs in itself.
pub proof fn lemma_occurs_in_itself(text: Seq<char>)
    ensures
        occurs_in(text, text),
{
    assert(text.subrange(0, text.len() as int) =~= text);
    assert(occurs_at(text, text, 0));
}


/// The characters of `s`.
pub fn chars_of(s: &str) -> (v: Vec<char>)
    ensures
        v@ == s@,
{
    let mut v: Vec<char> = Vec::new();
    let n = s.unicode_len();
    let mut i: usize = 0;
    while i < n
        invariant
            n == s@.len(),
            0 <= i <= n,
            v@ == s@.take(i as int),
        decreases n - i,
    {
        v.push(s.get_char(i));
        assert(s@.take(i + 1) =~= s@.take(i as int).push(s@[i as int]));
        i += 1;
    }
    assert(s@.take(n as int) =~= s@);
    v
}

/// Whether `a` and `b` are the same text.
pub fn same_text(a: &str, b: &str) -> (r: bool)
    ensures
        r == (a@ == b@),
{
    let x = chars_of(a);
    let y = chars_of(b);
    if x.len() != y.len() {
        return false;
    }
    let mut i: usize = 0;
    while i < x.len()
        invariant
            x@ == a@,
            y@ == b@,
            x@.len() == y@.len(),
            0 <= i <= x@.len(),
            x@.take(i as int) == y@.take(i as int),
        decreases x.len() - i,
    {
        if x[i] != y[i] {
            assert(x@[i as int] != y@[i as int]);
            return false;
        }
        assert(x@.take(i + 1) =~= x@.take(i as int).push(x@[i as int]));
        assert(y@.take(i + 1) =~= y@.take(i as int).push(y@[i as int]));
        i += 1;
    }
    assert(x@.take(x@.len() as int) =~= x@);
    assert(y@.take(y@.len() as int) =~= y@);
    true
}

/// Dictionary order looks only at what follows a common beginning.
proof fn lemma_text_le_skips_common(a: Seq<char>, b: Seq<char>, n: int)
    requires
        0 <= n <= a.len(),
        n <= b.len(),
        a.take(n) == b.take(n),
    ensures
        text_le(a, b) == text_le(a.skip(n), b.skip(n)),
    decreases n,
{
    if n == 0 {
        assert(a.skip(0) =~= a);
        assert(b.skip(0) =~= b);
    } else {
        assert(a[0] == a.take(n)[0]);
        assert(b[0] == b.take(n)[0]);
        assert(a.drop_first().take(n - 1) =~= a.take(n).drop_first());
        assert(b.drop_first().take(n - 1) =~= b.take(n).drop_first());
        lemma_text_le_skips_common(a.drop_first(), b.drop_first(), n - 1);
        assert(a.drop_first().skip(n - 1) =~= a.skip(n));
        assert(b.drop_first().skip(n - 1) =~= b.skip(n));
    }
}

/// Whether the characters `a` come no later than `b` in dictionary order.
pub fn chars_le(a: &Vec<char>, b: &Vec<char>) -> (r: bool)
    ensures
        r == text_le(a@, b@),
{
    let mut i: usize = 0;
    while i < a.len() && i < b.len()
        invariant
            0 <= i <= a@.len(),
            i <= b@.len(),
            a@.take(i as int) == b@.take(i as int),
        decreases a.len() - i,
    {
        if a[i] != b[i] {
            proof {
                lemma_text_le_skips_common(a@, b@, i as int);
            }
            return a[i] < b[i];
        }
        assert(a@.take(i + 1) =~= a@.take(i as int).push(a@[i as int]));
        assert(b@.take(i + 1) =~= b@.take(i as int).push(b@[i as int]));
        i += 1;
    }
    proof {
        lemma_text_le_skips_common(a@, b@, i as int);
    }
    i == a.len()
}

/// Whether `a` comes no later than `b` in dictionary order.
pub fn comes_no_later(a: &str, b: &str) -> (r: bool)
    ensures
        r == text_le(a@, b@),
{
    let x = chars_of(a);
    let y = chars_of(b);
    chars_le(&x, &y)
}

/// `c` with a capital letter from A to Z turned into the small one.
pub fn folded(c: char) -> (r: char)
    ensures
        r == fold_case(c),
{
    if 'A' <= c && c <= 'Z' {
        ((c as u8) + 32) as char
    } else {
        c
    }
}

/// Whether `needle` occurs in `hay` at position `at`, letters compared
/// without regard to case.
fn occurs_at_ignoring_case(needle: &Vec<char>, hay: &Vec<char>, at: usize) -> (r: bool)
    requires
        at + needle@.len() <= hay@.len(),
    ensures
        r == occurs_at(fold_text(needle@), fold_text(hay@), at as int),
{
    let ghost n = fold_text(needle@);
    let ghost h = fold_text(hay@);
    assert(hay@.len() == hay.len());
    let mut j: usize = 0;
    while j < needle.len()
        invariant
            n == fold_text(needle@),
            h == fold_text(hay@),
            at + needle@.len() <= hay@.len() <= usize::MAX,
            0 <= j <= needle@.len(),
            h.subrange(at as int, at + j) == n.take(j as int),
        decreases needle.len() - j,
    {
        if folded(needle[j]) != folded(hay[at + j]) {
            assert(h.subrange(at as int, at + n.len())[j as int] != n[j as int]);
            return false;
        }
        assert(h.subrange(at as int, at + j + 1) =~= h.subrange(at as int, at + j).push(
            h[at + j],
        ));
        assert(n.take(j + 1) =~= n.take(j as int).push(n[j as int]));
        j += 1;
    }
    assert(n.take(n.len() as int) =~= n);
    true
}

/// Whether `needle` occurs somewhere in `hay`, letters compared without
/// regard to case.
pub fn contains_ignoring_case(hay: &str, needle: &str) -> (r: bool)
    ensures
        r == occurs_ignoring_case(needle@, hay@),
{
    let h = chars_of(hay);
    let n = chars_of(needle);
    if n.len() > h.len() {
        assert forall|at: int| !occurs_at(fold_text(n@), fold_text(h@), at) by {}
        return false;
    }
    let last: usize = h.len() - n.len();
    let mut at: usize = 0;
    while at < last
        invariant
            h@ == hay@,
            n@ == needle@,
            last == h@.len() - n@.len(),
            0 <= at <= last,
            forall|k: int| 0 <= k < at ==> !occurs_at(fold_text(n@), fold_text(h@), k),
        decreases last - at,
    {
        if occurs_at_ignoring_case(&n, &h, at) {
            return true;
        }
        at += 1;
    }
    let r = occurs_at_ignoring_case(&n, &h, last);
    assert(!r ==> forall|k: int| !occurs_at(fold_text(n@), fold_text(h@), k));
    r
}


/// Whether `c` has a meaning of its own in a pattern: the two wildcards
/// and the escape character.
pub open spec fn is_wildcard(c: char) -> bool {
    c == '%' || c == '_' || c == '\\'
}

/// `s` with the escape character before every character that has a
/// meaning of its own in a pattern, so that the pattern stands for `s`
/// itself.
pub open spec fn escaped(s: Seq<char>) -> Seq<char>
    decreases s.len(),
{
    if s.len() == 0 {
        Seq::empty()
    } else if is_wildcard(s.last()) {
        escaped(s.drop_last()).push('\\').push(s.last())
    } else {
        escaped(s.drop_last()).push(s.last())
    }
}

/// The pattern that matches the texts in which `query` occurs: `query`
/// escaped, between two wildcards for any text.
pub open spec fn like_pattern_text(query: Seq<char>) -> Seq<char> {
    seq!['%'] + escaped(query) + seq!['%']
}

/// The pattern that matches the texts in which `query` occurs.
pub fn like_pattern(query: &str) -> (r: String)
    ensures
        r@ == like_pattern_text(query@),
{
    let mut r = "%".to_owned();
    proof {
        reveal_strlit("%");
        reveal_strlit("\\");
        assert(r@ =~= seq!['%'] + escaped(query@.take(0)));
    }
    let n = query.unicode_len();
    let mut i: usize = 0;
    while i < n
        invariant
            n == query@.len(),
            0 <= i <= n,
            r@ == seq!['%'] + escaped(query@.take(i as int)),
        decreases n - i,
    {
        let c = query.get_char(i);
        let ghost before = query@.take(i as int);
        proof {
            let now = query@.take(i + 1);
            assert(now.drop_last() =~= before);
            assert(now.last() == c);
            reveal_strlit("\\");
        }
        if c == '%' || c == '_' || c == '\\' {
            r.append("\\");
        }
        let one = query.substring_char(i, i + 1);
        assert(one@ =~= seq![c]);
        r.append(one);
        assert(r@ =~= seq!['%'] + escaped(query@.take(i + 1)));
        i += 1;
    }
    assert(query@.take(n as int) =~= query@);
    r.append("%");
    assert(r@ =~= like_pattern_text(query@));
    r
}

} // verus!
