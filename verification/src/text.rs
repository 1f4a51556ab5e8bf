//! Character and string foundations: conversions between `String` and
//! character vectors, character classes, trimming, splitting, joining,
//! substring search, and decimal parsing and rendering of `u64` values.
//!
//! Unicode character properties (whitespace, alphanumeric, lowercasing)
//! are supplied by the standard library behind named, trusted wrappers;
//! everything built on top of them is verified.

use vstd::prelude::*;
use vstd::std_specs::iter::IteratorSpec;

verus! {

broadcast use vstd::string::axiom_spec_iter, vstd::string::next_postcondition;

/// Whether the standard library considers `c` whitespace
/// (`char::is_whitespace`, the Unicode `White_Space` property).
pub uninterp spec fn is_unicode_space(c: char) -> bool;

/// Whether the standard library considers `c` alphanumeric
/// (`char::is_alphanumeric`, the Unicode `Alphabetic` and `Number`
/// categories).
pub uninterp spec fn is_unicode_alnum(c: char) -> bool;

/// The Unicode lowercase conversion of a character sequence, as computed
/// by `str::to_lowercase`.
pub uninterp spec fn lower_of(s: Seq<char>) -> Seq<char>;

/// Relies on char::is_whitespace: whether `c` has the Unicode
/// `White_Space` property. The result depends on the character alone.
#[verifier::external_body]
pub fn char_is_space(c: char) -> (r: bool)
    ensures
        r == is_unicode_space(c),
{
    c.is_whitespace()
}

/// Relies on char::is_alphanumeric: whether `c` is in the Unicode
/// `Alphabetic` or `Number` categories. The result depends on the
/// character alone.
#[verifier::external_body]
pub fn char_is_alnum(c: char) -> (r: bool)
    ensures
        r == is_unicode_alnum(c),
{
    c.is_alphanumeric()
}

/// Relies on str::to_lowercase: the Unicode lowercase conversion of the
/// string. The result depends on the characters alone; an empty string
/// stays empty.
#[verifier::external_body]
pub fn to_lowercase(s: &str) -> (r: String)
    ensures
        r@ == lower_of(s@),
        s@.len() == 0 ==> r@.len() == 0,
{
    s.to_lowercase()
}

/// Relies on String::push: appends one character to the string.
#[verifier::external_body]
pub fn push_char(s: &mut String, c: char)
    ensures
        final(s)@ == old(s)@.push(c),
{
    s.push(c);
}

/// The characters of `s`, in order.
pub fn chars_of(s: &str) -> (v: Vec<char>)
    ensures
        v@ == s@,
{
    let mut it = s.chars();
    let mut v: Vec<char> = Vec::new();
    loop
        invariant_except_break
            it.obeys_prophetic_iter_laws(),
            it.decrease() is Some,
            v@ + it.remaining() == s@,
        ensures
            v@ == s@,
        decreases it.decrease()->0,
    {
        match it.next() {
            Some(c) => {
                v.push(c);
            },
            None => {
                assert(v@ =~= s@);
                break ;
            },
        }
    }
    v
}

/// A class of characters that can be stripped from the ends of a string.
#[derive(Debug, Clone, Copy, PartialEq, Eq, Structural)]
pub enum CharClass {
    /// Unicode whitespace.
    Space,
    /// The underscore character.
    Underscore,
    /// Double or single quotes.
    Quote,
    /// Sentence-ending punctuation: `.`, `!`, `?`.
    SentenceEnd,
    /// Everything that is not Unicode alphanumeric.
    NonAlnum,
}

/// Whether `c` belongs to `class`.
pub open spec fn in_class(class: CharClass, c: char) -> bool {
    match class {
        CharClass::Space => is_unicode_space(c),
        CharClass::Underscore => c == '_',
        CharClass::Quote => c == '"' || c == '\'',
        CharClass::SentenceEnd => c == '.' || c == '!' || c == '?',
        CharClass::NonAlnum => !is_unicode_alnum(c),
    }
}

/// Decides membership in a character class.
pub fn char_in_class(class: CharClass, c: char) -> (r: bool)
    ensures
        r == in_class(class, c),
{
    match class {
        CharClass::Space => char_is_space(c),
        CharClass::Underscore => c == '_',
        CharClass::Quote => c == '"' || c == '\'',
        CharClass::SentenceEnd => c == '.' || c == '!' || c == '?',
        CharClass::NonAlnum => !char_is_alnum(c),
    }
}

/// `s` with every leading character of `class` removed.
pub open spec fn trim_start_spec(s: Seq<char>, class: CharClass) -> Seq<char>
    decreases s.len(),
{
    if s.len() > 0 && in_class(class, s[0]) {
        trim_start_spec(s.drop_first(), class)
    } else {
        s
    }
}

/// `s` with every trailing character of `class` removed.
pub open spec fn trim_end_spec(s: Seq<char>, class: CharClass) -> Seq<char>
    decreases s.len(),
{
    if s.len() > 0 && in_class(class, s.last()) {
        trim_end_spec(s.drop_last(), class)
    } else {
        s
    }
}

/// `s` with every leading and trailing character of `class` removed.
pub open spec fn trim_spec(s: Seq<char>, class: CharClass) -> Seq<char> {
    trim_end_spec(trim_start_spec(s, class), class)
}

/// The characters of `v` from position `a` (inclusive) to `b` (exclusive).
pub fn subvec_chars(v: &Vec<char>, a: usize, b: usize) -> (r: Vec<char>)
    requires
        a <= b <= v@.len(),
    ensures
        r@ == v@.subrange(a as int, b as int),
{
    let mut r: Vec<char> = Vec::new();
    let mut i: usize = a;
    while i < b
        invariant
            a <= i <= b <= v@.len(),
            r@ == v@.subrange(a as int, i as int),
        decreases b - i,
    {
        r.push(v[i]);
        i = i + 1;
        assert(r@ =~= v@.subrange(a as int, i as int));
    }
    r
}

/// Strips leading characters of `class` from `v`.
pub fn trim_start_chars(v: &Vec<char>, class: CharClass) -> (r: Vec<char>)
    ensures
        r@ == trim_start_spec(v@, class),
{
    let mut i: usize = 0;
    assert(v@ =~= v@.subrange(0, v@.len() as int));
    loop
        invariant_except_break
            i <= v@.len(),
            trim_start_spec(v@, class) == trim_start_spec(
                v@.subrange(i as int, v@.len() as int),
                class,
            ),
        ensures
            i <= v@.len(),
            trim_start_spec(v@, class) == v@.subrange(i as int, v@.len() as int),
        decreases v@.len() - i,
    {
        assert(v@ =~= v@.subrange(0, v@.len() as int));
        if i >= v.len() {
            assert(v@.subrange(i as int, v@.len() as int) =~= Seq::<char>::empty());
            break ;
        }
        let suffix = Ghost(v@.subrange(i as int, v@.len() as int));
        assert(suffix@[0] == v@[i as int]);
        if !char_in_class(class, v[i]) {
            break ;
        }
        assert(suffix@.drop_first() =~= v@.subrange(i + 1, v@.len() as int));
        i = i + 1;
    }
    subvec_chars(v, i, v.len())
}

/// Strips trailing characters of `class` from `v`.
pub fn trim_end_chars(v: &Vec<char>, class: CharClass) -> (r: Vec<char>)
    ensures
        r@ == trim_end_spec(v@, class),
{
    let mut j: usize = v.len();
    assert(v@ =~= v@.subrange(0, v@.len() as int));
    loop
        invariant_except_break
            j <= v@.len(),
            trim_end_spec(v@, class) == trim_end_spec(v@.subrange(0, j as int), class),
        ensures
            j <= v@.len(),
            trim_end_spec(v@, class) == v@.subrange(0, j as int),
        decreases j,
    {
        assert(v@ =~= v@.subrange(0, v@.len() as int));
        if j == 0 {
            assert(v@.subrange(0, 0) =~= Seq::<char>::empty());
            break ;
        }
        let prefix = Ghost(v@.subrange(0, j as int));
        assert(prefix@.last() == v@[j - 1]);
        if !char_in_class(class, v[j - 1]) {
            break ;
        }
        assert(prefix@.drop_last() =~= v@.subrange(0, j - 1));
        j = j - 1;
    }
    subvec_chars(v, 0, j)
}

/// Strips characters of `class` from both ends of `v`.
pub fn trim_chars(v: &Vec<char>, class: CharClass) -> (r: Vec<char>)
    ensures
        r@ == trim_spec(v@, class),
{
    let stripped = trim_start_chars(v, class);
    trim_end_chars(&stripped, class)
}

/// Whether `a` and `b` hold the same characters.
pub fn chars_eq(a: &Vec<char>, b: &Vec<char>) -> (r: bool)
    ensures
        r == (a@ == b@),
{
    if a.len() != b.len() {
        return false;
    }
    let mut i: usize = 0;
    while i < a.len()
        invariant
            i <= a@.len() == b@.len(),
            forall|k: int| 0 <= k < i ==> a@[k] == b@[k],
        decreases a@.len() - i,
    {
        if a[i] != b[i] {
            return false;
        }
        i = i + 1;
    }
    assert(a@ =~= b@);
    true
}

/// Whether `p` is a prefix of `h`.
pub open spec fn starts_with_spec(h: Seq<char>, p: Seq<char>) -> bool {
    h.len() >= p.len() && h.subrange(0, p.len() as int) == p
}

/// Decides whether `p` is a prefix of `h`.
pub fn starts_with_chars(h: &Vec<char>, p: &Vec<char>) -> (r: bool)
    ensures
        r == starts_with_spec(h@, p@),
{
    if h.len() < p.len() {
        return false;
    }
    let mut i: usize = 0;
    while i < p.len()
        invariant
            i <= p@.len() <= h@.len(),
            forall|k: int| 0 <= k < i ==> h@[k] == p@[k],
        decreases p@.len() - i,
    {
        if h[i] != p[i] {
            assert(h@.subrange(0, p@.len() as int)[i as int] != p@[i as int]);
            return false;
        }
        i = i + 1;
    }
    assert(h@.subrange(0, p@.len() as int) =~= p@);
    true
}

/// Whether `n` occurs in `h` starting at position `i`.
pub open spec fn match_at(h: Seq<char>, n: Seq<char>, i: int) -> bool {
    0 <= i && i + n.len() <= h.len() && h.subrange(i, i + n.len() as int) == n
}

/// Whether `n` occurs anywhere in `h`.
pub open spec fn has_substring(h: Seq<char>, n: Seq<char>) -> bool {
    exists|i: int| match_at(h, n, i)
}

/// Decides whether `n` occurs anywhere in `h`.
pub fn contains_chars(h: &Vec<char>, n: &Vec<char>) -> (r: bool)
    ensures
        r == has_substring(h@, n@),
{
    if n.len() > h.len() {
        assert(forall|i: int| !match_at(h@, n@, i));
        return false;
    }
    if n.len() == 0 {
        assert(h@.subrange(0, 0) =~= n@);
        assert(match_at(h@, n@, 0));
        return true;
    }
    let hl = h.len();
    let nl = n.len();
    let mut i: usize = 0;
    while i <= hl - nl
        invariant
            hl == h@.len(),
            nl == n@.len(),
            1 <= nl <= hl,
            i <= hl - nl + 1,
            forall|k: int| 0 <= k < i ==> !match_at(h@, n@, k),
        decreases hl - nl + 1 - i,
    {
        let mut j: usize = 0;
        let mut hit = true;
        while j < nl
            invariant_except_break
                hit,
                hl == h@.len(),
                nl == n@.len(),
                i + nl <= hl,
                j <= nl,
                forall|k: int| 0 <= k < j ==> h@[i + k] == n@[k],
            ensures
                hit ==> j == n@.len() && forall|k: int| 0 <= k < j ==> h@[i + k] == n@[k],
                !hit ==> !match_at(h@, n@, i as int),
            decreases nl - j,
        {
            if h[i + j] != n[j] {
                assert(h@.subrange(i as int, i + n@.len() as int)[j as int] != n@[j as int]);
                hit = false;
                break ;
            }
            j = j + 1;
        }
        if hit {
            assert(h@.subrange(i as int, i + n@.len() as int) =~= n@);
            assert(match_at(h@, n@, i as int));
            return true;
        }
        i = i + 1;
    }
    assert(forall|k: int| !match_at(h@, n@, k));
    false
}

/// The views of a sequence of character vectors.
pub open spec fn views_of(s: Seq<Vec<char>>) -> Seq<Seq<char>> {
    s.map_values(|v: Vec<char>| v@)
}

/// The views of a sequence of strings.
pub open spec fn string_views(s: Seq<String>) -> Seq<Seq<char>> {
    s.map_values(|x: String| x@)
}

/// The segments of `s` between occurrences of `sep`, in order. Splitting
/// the empty sequence yields one empty segment, as `str::split` does.
pub open spec fn split_spec(s: Seq<char>, sep: char) -> Seq<Seq<char>>
    decreases s.len(),
{
    if s.len() == 0 {
        seq![Seq::<char>::empty()]
    } else if s.last() == sep {
        split_spec(s.drop_last(), sep).push(Seq::<char>::empty())
    } else {
        let rest = split_spec(s.drop_last(), sep);
        rest.update(rest.len() - 1, rest.last().push(s.last()))
    }
}

/// Splitting always yields at least one segment.
pub proof fn lemma_split_nonempty(s: Seq<char>, sep: char)
    ensures
        split_spec(s, sep).len() >= 1,
    decreases s.len(),
{
    if s.len() > 0 {
        lemma_split_nonempty(s.drop_last(), sep);
    }
}

/// Splits `v` at every occurrence of `sep`.
pub fn split_chars(v: &Vec<char>, sep: char) -> (r: Vec<Vec<char>>)
    ensures
        views_of(r@) == split_spec(v@, sep),
{
    let mut parts: Vec<Vec<char>> = Vec::new();
    let mut cur: Vec<char> = Vec::new();
    let mut i: usize = 0;
    assert(v@.subrange(0, 0) =~= Seq::<char>::empty());
    assert(views_of(parts@).push(cur@) =~= split_spec(v@.subrange(0, 0), sep));
    while i < v.len()
        invariant
            i <= v@.len(),
            views_of(parts@).push(cur@) == split_spec(v@.subrange(0, i as int), sep),
        decreases v@.len() - i,
    {
        let ghost prefix = v@.subrange(0, i as int);
        let ghost longer = v@.subrange(0, i + 1);
        assert(longer.drop_last() =~= prefix);
        assert(longer.last() == v@[i as int]);
        proof {
            lemma_split_nonempty(prefix, sep);
        }
        if v[i] == sep {
            parts.push(cur);
            cur = Vec::new();
            assert(views_of(parts@).push(cur@) =~= split_spec(longer, sep));
        } else {
            cur.push(v[i]);
            proof {
                let rest = split_spec(prefix, sep);
                assert(views_of(parts@).push(cur@) =~= rest.update(
                    rest.len() - 1,
                    rest.last().push(v@[i as int]),
                ));
            }
        }
        i = i + 1;
    }
    assert(v@.subrange(0, v@.len() as int) =~= v@);
    parts.push(cur);
    assert(views_of(parts@) =~= split_spec(v@, sep));
    parts
}

/// The maximal runs of non-whitespace characters of `s`, in order, as
/// `str::split_whitespace` yields them: no empty tokens.
pub open spec fn split_ws_spec(s: Seq<char>) -> Seq<Seq<char>>
    decreases s.len(),
{
    if s.len() == 0 {
        Seq::<Seq<char>>::empty()
    } else if is_unicode_space(s.last()) {
        split_ws_spec(s.drop_last())
    } else if s.len() == 1 || is_unicode_space(s[s.len() - 2]) {
        split_ws_spec(s.drop_last()).push(seq![s.last()])
    } else {
        let rest = split_ws_spec(s.drop_last());
        rest.update(rest.len() - 1, rest.last().push(s.last()))
    }
}

/// Splits `v` into its whitespace-separated tokens.
pub fn split_whitespace_chars(v: &Vec<char>) -> (r: Vec<Vec<char>>)
    ensures
        views_of(r@) == split_ws_spec(v@),
{
    let mut parts: Vec<Vec<char>> = Vec::new();
    let mut cur: Vec<char> = Vec::new();
    let mut i: usize = 0;
    assert(v@.subrange(0, 0) =~= Seq::<char>::empty());
    assert(views_of(parts@) =~= split_ws_spec(v@.subrange(0, 0)));
    while i < v.len()
        invariant
            i <= v@.len(),
            cur@.len() == 0 ==> views_of(parts@) == split_ws_spec(v@.subrange(0, i as int)),
            cur@.len() == 0 ==> (i == 0 || is_unicode_space(v@[i - 1])),
            cur@.len() > 0 ==> views_of(parts@).push(cur@) == split_ws_spec(
                v@.subrange(0, i as int),
            ),
            cur@.len() > 0 ==> i > 0 && !is_unicode_space(v@[i - 1]) && cur@.last() == v@[i - 1],
        decreases v@.len() - i,
    {
        let ghost prefix = v@.subrange(0, i as int);
        let ghost longer = v@.subrange(0, i + 1);
        assert(longer.drop_last() =~= prefix);
        assert(longer.last() == v@[i as int]);
        if char_is_space(v[i]) {
            if cur.len() > 0 {
                parts.push(cur);
                cur = Vec::new();
            }
            assert(views_of(parts@) =~= split_ws_spec(longer));
        } else {
            if cur.len() == 0 {
                assert(longer.len() == 1 || is_unicode_space(longer[longer.len() - 2]));
                cur.push(v[i]);
                assert(cur@ =~= seq![v@[i as int]]);
                assert(views_of(parts@).push(cur@) =~= split_ws_spec(longer));
            } else {
                assert(!is_unicode_space(longer[longer.len() - 2]));
                cur.push(v[i]);
                proof {
                    let rest = split_ws_spec(prefix);
                    assert(views_of(parts@).push(cur@) =~= rest.update(
                        rest.len() - 1,
                        rest.last().push(v@[i as int]),
                    ));
                }
            }
        }
        i = i + 1;
    }
    assert(v@.subrange(0, v@.len() as int) =~= v@);
    if cur.len() > 0 {
        parts.push(cur);
        assert(views_of(parts@) =~= split_ws_spec(v@).drop_last().push(split_ws_spec(v@).last()));
        assert(views_of(parts@) =~= split_ws_spec(v@));
    }
    parts
}

/// The concatenation of `parts` with `sep` between consecutive parts.
pub open spec fn join_spec(parts: Seq<Seq<char>>, sep: Seq<char>) -> Seq<char>
    decreases parts.len(),
{
    if parts.len() == 0 {
        Seq::<char>::empty()
    } else if parts.len() == 1 {
        parts[0]
    } else {
        join_spec(parts.drop_last(), sep) + sep + parts.last()
    }
}

/// Joins character vectors with a separator string.
pub fn join_chars(parts: &Vec<Vec<char>>, sep: &Vec<char>) -> (r: Vec<char>)
    ensures
        r@ == join_spec(views_of(parts@), sep@),
{
    let mut r: Vec<char> = Vec::new();
    let mut i: usize = 0;
    assert(views_of(parts@).subrange(0, 0) =~= Seq::<Seq<char>>::empty());
    while i < parts.len()
        invariant
            i <= parts@.len(),
            r@ == join_spec(views_of(parts@).subrange(0, i as int), sep@),
        decreases parts@.len() - i,
    {
        let ghost all = views_of(parts@);
        assert(all.subrange(0, i + 1).drop_last() =~= all.subrange(0, i as int));
        assert(all.subrange(0, i + 1).last() == parts@[i as int]@);
        if i > 0 {
            let mut k: usize = 0;
            while k < sep.len()
                invariant
                    k <= sep@.len(),
                    r@ == join_spec(views_of(parts@).subrange(0, i as int), sep@) + sep@.subrange(
                        0,
                        k as int,
                    ),
                    i <= parts@.len(),
                    0 < i,
                decreases sep@.len() - k,
            {
                r.push(sep[k]);
                assert(r@ =~= join_spec(views_of(parts@).subrange(0, i as int), sep@)
                    + sep@.subrange(0, k + 1));
                k = k + 1;
            }
            assert(sep@.subrange(0, sep@.len() as int) =~= sep@);
        }
        let part = &parts[i];
        let mut k: usize = 0;
        while k < part.len()
            invariant
                k <= part@.len(),
                part@ == parts@[i as int]@,
                i < parts@.len(),
                i == 0 ==> r@ == part@.subrange(0, k as int),
                i > 0 ==> r@ == join_spec(views_of(parts@).subrange(0, i as int), sep@) + sep@
                    + part@.subrange(0, k as int),
            decreases part@.len() - k,
        {
            r.push(part[k]);
            assert(part@.subrange(0, k as int).push(part@[k as int]) =~= part@.subrange(0, k + 1));
            k = k + 1;
        }
        assert(part@.subrange(0, part@.len() as int) =~= part@);
        proof {
            let all = views_of(parts@);
            if i == 0 {
                assert(all.subrange(0, 1).len() == 1);
                assert(r@ == join_spec(all.subrange(0, 1), sep@));
            } else {
                assert(all.subrange(0, i + 1).len() >= 2);
            }
        }
        i = i + 1;
    }
    assert(views_of(parts@).subrange(0, parts@.len() as int) =~= views_of(parts@));
    r
}

/// Whether `c` is an ASCII decimal digit.
pub open spec fn is_digit(c: char) -> bool {
    48 <= c as u32 <= 57
}

/// Whether every character of `s` is an ASCII decimal digit.
pub open spec fn all_digits(s: Seq<char>) -> bool {
    forall|i: int| 0 <= i < s.len() ==> is_digit(#[trigger] s[i])
}

/// The value of `s` read as a decimal numeral, most significant digit
/// first.
pub open spec fn digits_val(s: Seq<char>) -> int
    decreases s.len(),
{
    if s.len() == 0 {
        0
    } else {
        digits_val(s.drop_last()) * 10 + (s.last() as u32 - 48)
    }
}

/// What `str::parse::<u64>` returns on `s`: an optional leading `+`,
/// then at least one decimal digit, and the value must fit in 64 bits.
pub open spec fn parse_u64_spec(s: Seq<char>) -> Option<u64> {
    let digits = if s.len() > 0 && s[0] == '+' {
        s.drop_first()
    } else {
        s
    };
    if digits.len() > 0 && all_digits(digits) && digits_val(digits) <= u64::MAX {
        Some(digits_val(digits) as u64)
    } else {
        None
    }
}

/// A numeral never shrinks when digits are appended.
proof fn lemma_digits_val_extend(s: Seq<char>, i: int)
    requires
        0 <= i <= s.len(),
        all_digits(s),
    ensures
        digits_val(s) >= digits_val(s.subrange(0, i)),
        digits_val(s) >= 0,
    decreases s.len() - i,
{
    if i == s.len() {
        assert(s.subrange(0, i) =~= s);
        lemma_digits_val_nonneg(s);
    } else {
        lemma_digits_val_extend(s, i + 1);
        let shorter = s.subrange(0, i);
        let longer = s.subrange(0, i + 1);
        assert(longer.drop_last() =~= shorter);
        lemma_digits_val_nonneg(shorter);
    }
}

/// A numeral's value is never negative.
proof fn lemma_digits_val_nonneg(s: Seq<char>)
    requires
        all_digits(s),
    ensures
        digits_val(s) >= 0,
    decreases s.len(),
{
    if s.len() > 0 {
        assert(all_digits(s.drop_last())) by {
            assert(forall|i: int|
                0 <= i < s.len() - 1 ==> #[trigger] s.drop_last()[i] == s[i]);
        }
        lemma_digits_val_nonneg(s.drop_last());
    }
}

/// Parses `v` as `str::parse::<u64>` would: an optional leading `+`
/// sign, then decimal digits, rejecting empty input, other characters,
/// and values over `u64::MAX`.
pub fn parse_u64_chars(v: &Vec<char>) -> (r: Option<u64>)
    ensures
        r == parse_u64_spec(v@),
{
    let start: usize = if v.len() > 0 && v[0] == '+' {
        1
    } else {
        0
    };
    let ghost digits = if v@.len() > 0 && v@[0] == '+' {
        v@.drop_first()
    } else {
        v@
    };
    assert(digits =~= v@.subrange(start as int, v@.len() as int));
    if v.len() == start {
        return None;
    }
    let mut acc: u64 = 0;
    let mut i: usize = start;
    assert(digits.subrange(0, 0) =~= Seq::<char>::empty());
    while i < v.len()
        invariant
            start <= i <= v@.len(),
            start <= 1,
            (start == 1) == (v@.len() > 0 && v@[0] == '+'),
            digits == v@.subrange(start as int, v@.len() as int),
            all_digits(digits.subrange(0, i - start)),
            acc == digits_val(digits.subrange(0, i - start)),
        decreases v@.len() - i,
    {
        proof {
            if start == 1 {
                assert(v@.drop_first() =~= v@.subrange(1, v@.len() as int));
            } else {
                assert(v@ =~= v@.subrange(0, v@.len() as int));
            }
        }
        let c = v[i];
        let code = c as u32;
        let ghost shorter = digits.subrange(0, i - start);
        let ghost longer = digits.subrange(0, i + 1 - start);
        assert(longer.drop_last() =~= shorter);
        assert(longer.last() == v@[i as int]);
        if code < 48 || code > 57 {
            assert(!all_digits(digits)) by {
                assert(digits[i - start] == v@[i as int]);
            }
            return None;
        }
        let d = (code - 48) as u64;
        let scaled = match acc.checked_mul(10) {
            Some(s) => s.checked_add(d),
            None => None,
        };
        match scaled {
            Some(next) => {
                acc = next;
            },
            None => {
                proof {
                    lemma_digits_val_nonneg(shorter);
                    if all_digits(digits) {
                        lemma_digits_val_extend(digits, i + 1 - start);
                        assert(digits_val(longer) == acc * 10 + d);
                        assert(digits_val(digits) > u64::MAX);
                    }
                }
                return None;
            },
        }
        i = i + 1;
    }
    assert(digits.subrange(0, v@.len() - start) =~= digits);
    Some(acc)
}

/// The character for the decimal digit `d`.
pub open spec fn digit_char(d: int) -> char {
    (48 + d) as char
}

/// The decimal numeral for `n`, most significant digit first, with no
/// leading zeros (`0` itself is the single character `0`).
pub open spec fn dec_chars(n: int) -> Seq<char>
    decreases n,
{
    if n < 10 {
        seq![digit_char(n)]
    } else {
        dec_chars(n / 10).push(digit_char(n % 10))
    }
}

/// Renders `n` in decimal.
pub fn u64_to_chars(n: u64) -> (v: Vec<char>)
    ensures
        v@ == dec_chars(n as int),
    decreases n,
{
    let d = n % 10;
    let c = (48 + d as u8) as char;
    assert(c == digit_char(d as int));
    if n < 10 {
        let mut v: Vec<char> = Vec::new();
        v.push(c);
        assert(v@ =~= dec_chars(n as int));
        v
    } else {
        let mut v = u64_to_chars(n / 10);
        v.push(c);
        v
    }
}

/// Renders `n` as a decimal string.
pub fn u64_to_string(n: u64) -> (s: String)
    ensures
        s@ == dec_chars(n as int),
{
    let v = u64_to_chars(n);
    string_from_chars(&v)
}

/// Lexicographic order on character sequences by Unicode code point,
/// which is the order the standard library gives strings.
pub open spec fn chars_le(a: Seq<char>, b: Seq<char>) -> bool
    decreases a.len(),
{
    if a.len() == 0 {
        true
    } else if b.len() == 0 {
        false
    } else if (a[0] as u32) < (b[0] as u32) {
        true
    } else if (a[0] as u32) > (b[0] as u32) {
        false
    } else {
        chars_le(a.drop_first(), b.drop_first())
    }
}

/// Characters with equal code points are equal.
proof fn lemma_char_eq(a: char, b: char)
    requires
        a as u32 == b as u32,
    ensures
        a == b,
{
    vstd::utf8::char_u32_cast(a, a as u32);
    vstd::utf8::char_u32_cast(b, a as u32);
}

/// The order is total.
pub proof fn lemma_chars_le_total(a: Seq<char>, b: Seq<char>)
    ensures
        chars_le(a, b) || chars_le(b, a),
    decreases a.len(),
{
    if a.len() > 0 && b.len() > 0 && a[0] as u32 == b[0] as u32 {
        lemma_chars_le_total(a.drop_first(), b.drop_first());
    }
}

/// Mutually ordered sequences are equal.
pub proof fn lemma_chars_le_antisymmetric(a: Seq<char>, b: Seq<char>)
    requires
        chars_le(a, b),
        chars_le(b, a),
    ensures
        a == b,
    decreases a.len(),
{
    if a.len() == 0 {
        assert(b.len() == 0);
        assert(a =~= b);
    } else {
        assert(b.len() > 0);
        assert(a[0] as u32 == b[0] as u32);
        lemma_char_eq(a[0], b[0]);
        lemma_chars_le_antisymmetric(a.drop_first(), b.drop_first());
        assert forall|i: int| 1 <= i < a.len() implies a[i] == b[i] by {
            assert(a.drop_first()[i - 1] == b.drop_first()[i - 1]);
        }
        assert(a =~= b);
    }
}

/// The order is transitive.
pub proof fn lemma_chars_le_transitive(a: Seq<char>, b: Seq<char>, c: Seq<char>)
    requires
        chars_le(a, b),
        chars_le(b, c),
    ensures
        chars_le(a, c),
    decreases a.len(),
{
    if a.len() > 0 && b.len() > 0 {
        if a[0] as u32 == b[0] as u32 {
            lemma_char_eq(a[0], b[0]);
            if c.len() > 0 && b[0] as u32 == c[0] as u32 {
                lemma_char_eq(b[0], c[0]);
                lemma_chars_le_transitive(a.drop_first(), b.drop_first(), c.drop_first());
            }
        }
    }
}

/// Decides the code-point order of two character vectors.
pub fn chars_le_exec(a: &Vec<char>, b: &Vec<char>) -> (r: bool)
    ensures
        r == chars_le(a@, b@),
{
    let al = a.len();
    let bl = b.len();
    let mut i: usize = 0;
    assert(a@.subrange(0, a@.len() as int) =~= a@);
    assert(b@.subrange(0, b@.len() as int) =~= b@);
    loop
        invariant
            al == a@.len(),
            bl == b@.len(),
            i <= al,
            i <= bl,
            chars_le(a@, b@) == chars_le(
                a@.subrange(i as int, al as int),
                b@.subrange(i as int, bl as int),
            ),
        decreases al - i,
    {
        let ghost sa = a@.subrange(i as int, al as int);
        let ghost sb = b@.subrange(i as int, bl as int);
        if i == al {
            assert(sa =~= Seq::<char>::empty());
            return true;
        }
        if i == bl {
            assert(sb =~= Seq::<char>::empty());
            assert(sa.len() > 0);
            return false;
        }
        assert(sa[0] == a@[i as int] && sb[0] == b@[i as int]);
        if (a[i] as u32) < (b[i] as u32) {
            return true;
        }
        if (a[i] as u32) > (b[i] as u32) {
            return false;
        }
        assert(sa.drop_first() =~= a@.subrange(i + 1, al as int));
        assert(sb.drop_first() =~= b@.subrange(i + 1, bl as int));
        i = i + 1;
    }
}

/// The string holding exactly the characters of `v`, in order.
pub fn string_from_chars(v: &Vec<char>) -> (s: String)
    ensures
        s@ == v@,
{
    let mut s = String::new();
    let mut i: usize = 0;
    while i < v.len()
        invariant
            i <= v.len(),
            s@ == v@.subrange(0, i as int),
        decreases v.len() - i,
    {
        push_char(&mut s, v[i]);
        i = i + 1;
        assert(s@ =~= v@.subrange(0, i as int));
    }
    assert(s@ =~= v@);
    s
}

} // verus!
