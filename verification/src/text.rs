//! Character-level string model shared by the parsers and formatters.
//!
//! Every text value is reasoned about as its sequence of characters
//! (`s@`). The spec functions here give the meaning of the std string
//! operations that the rest of the crate relies on (trimming, splitting,
//! searching, decimal conversion), and each executable function is proved
//! to compute exactly that meaning.

use vstd::prelude::*;

verus! {

// ---------------------------------------------------------------------
// conversion between strings and character vectors
// ---------------------------------------------------------------------

/// The characters of `s`, in order.
pub fn chars_of(s: &str) -> (v: Vec<char>)
    ensures
        v@ == s@,
{
    let mut v: Vec<char> = Vec::new();
    for c in it: s.chars()
        invariant
            v@ == it.seq().take(it.index() as int),
            it.seq() == s@,
    {
        v.push(c);
    }
    v
}

/// Appends one character to a string.
///
/// Wraps `String::push`, which std documents as appending the character to
/// the end of the string; nothing else about the string changes.
#[verifier::external_body]
pub fn push_char(s: &mut String, c: char)
    ensures
        final(s)@ == old(s)@.push(c),
{
    s.push(c);
}

/// A string holding exactly the characters `v`.
pub fn string_of(v: &[char]) -> (s: String)
    ensures
        s@ == v@,
{
    let mut s = String::new();
    let mut i: usize = 0;
    while i < v.len()
        invariant
            i <= v@.len(),
            s@ == v@.take(i as int),
        decreases v@.len() - i,
    {
        push_char(&mut s, v[i]);
        assert(v@.take(i as int).push(v@[i as int]) =~= v@.take(i + 1));
        i = i + 1;
    }
    assert(v@.take(v@.len() as int) =~= v@);
    s
}

/// Appends all characters of `v` to `s`.
pub fn push_chars(s: &mut String, v: &[char])
    ensures
        final(s)@ == old(s)@ + v@,
{
    let mut i: usize = 0;
    while i < v.len()
        invariant
            i <= v@.len(),
            s@ == old(s)@ + v@.take(i as int),
        decreases v@.len() - i,
    {
        push_char(s, v[i]);
        assert(v@.take(i as int).push(v@[i as int]) =~= v@.take(i + 1));
        assert((old(s)@ + v@.take(i as int)).push(v@[i as int]) =~= old(s)@ + v@.take(i + 1));
        i = i + 1;
    }
    assert(v@.take(v@.len() as int) =~= v@);
}

/// An owned copy of `t`.
pub fn owned(t: &str) -> (s: String)
    ensures
        s@ == t@,
{
    let mut s = String::new();
    push_str(&mut s, t);
    assert(Seq::<char>::empty() + t@ =~= t@);
    s
}

/// An owned copy of `t`.
pub fn clone_string(t: &String) -> (s: String)
    ensures
        s == *t,
{
    t.clone()
}

/// Appends the string `t` to `s`.
pub fn push_str(s: &mut String, t: &str)
    ensures
        final(s)@ == old(s)@ + t@,
{
    let v = chars_of(t);
    push_chars(s, v.as_slice());
}

/// A copy of `v[from..to]`.
pub fn sub_vec(v: &[char], from: usize, to: usize) -> (r: Vec<char>)
    requires
        from <= to <= v@.len(),
    ensures
        r@ == v@.subrange(from as int, to as int),
{
    let mut r: Vec<char> = Vec::new();
    let mut i: usize = from;
    while i < to
        invariant
            from <= i <= to <= v@.len(),
            r@ == v@.subrange(from as int, i as int),
        decreases to - i,
    {
        r.push(v[i]);
        assert(v@.subrange(from as int, i as int).push(v@[i as int]) =~= v@.subrange(
            from as int,
            i + 1,
        ));
        i = i + 1;
    }
    r
}

/// Whether two character slices are equal.
pub fn chars_eq(a: &[char], b: &[char]) -> (r: bool)
    ensures
        r == (a@ == b@),
{
    if a.len() != b.len() {
        return false;
    }
    let mut i: usize = 0;
    while i < a.len()
        invariant
            a@.len() == b@.len(),
            i <= a@.len(),
            forall|j: int| 0 <= j < i ==> a@[j] == b@[j],
        decreases a@.len() - i,
    {
        if a[i] != b[i] {
            return false;
        }
        i = i + 1;
    }
    assert(a@ =~= b@);
    true
}

/// Whether two strings are equal.
pub fn str_eq(a: &str, b: &str) -> (r: bool)
    ensures
        r == (a@ == b@),
{
    let x = chars_of(a);
    let y = chars_of(b);
    chars_eq(x.as_slice(), y.as_slice())
}

// ---------------------------------------------------------------------
// character classes
// ---------------------------------------------------------------------

/// Unicode `White_Space`, which is what `char::is_whitespace` (and with it
/// `str::trim` and `str::split_whitespace`) tests.
pub open spec fn is_ws(c: char) -> bool {
    let u = c as u32;
    (0x9 <= u && u <= 0xd) || u == 0x20 || u == 0x85 || u == 0xa0 || u == 0x1680 || (0x2000 <= u
        && u <= 0x200a) || u == 0x2028 || u == 0x2029 || u == 0x202f || u == 0x205f || u == 0x3000
}

pub fn is_whitespace(c: char) -> (r: bool)
    ensures
        r == is_ws(c),
{
    let u = c as u32;
    (0x9 <= u && u <= 0xd) || u == 0x20 || u == 0x85 || u == 0xa0 || u == 0x1680 || (0x2000 <= u
        && u <= 0x200a) || u == 0x2028 || u == 0x2029 || u == 0x202f || u == 0x205f || u == 0x3000
}

/// Unicode general category `Cc`, which is what `char::is_control` tests.
pub open spec fn is_ctrl(c: char) -> bool {
    let u = c as u32;
    u <= 0x1f || (0x7f <= u && u <= 0x9f)
}

pub fn is_control(c: char) -> (r: bool)
    ensures
        r == is_ctrl(c),
{
    let u = c as u32;
    u <= 0x1f || (0x7f <= u && u <= 0x9f)
}

/// ASCII lowercase of one character; every other character is unchanged.
pub open spec fn ascii_lower(c: char) -> char {
    if 'A' <= c && c <= 'Z' {
        ((c as u32) + 32) as char
    } else {
        c
    }
}

pub fn ascii_lower_char(c: char) -> (r: char)
    ensures
        r == ascii_lower(c),
{
    if 'A' <= c && c <= 'Z' {
        ((c as u8) + 32) as char
    } else {
        c
    }
}

/// ASCII uppercase of one character; every other character is unchanged.
pub open spec fn ascii_upper(c: char) -> char {
    if 'a' <= c && c <= 'z' {
        ((c as u32) - 32) as char
    } else {
        c
    }
}

/// `str::to_ascii_uppercase` on a character sequence.
pub open spec fn ascii_upper_seq(s: Seq<char>) -> Seq<char> {
    s.map_values(|c: char| ascii_upper(c))
}

/// Lowercasing forgets an ASCII uppercasing.
pub proof fn lemma_lower_of_upper(s: Seq<char>)
    ensures
        ascii_lower_seq(ascii_upper_seq(s)) == ascii_lower_seq(s),
{
    assert forall|i: int| 0 <= i < s.len() implies #[trigger] ascii_lower(ascii_upper(s[i]))
        == ascii_lower(s[i]) by {
        let c = s[i];
        if 'a' <= c && c <= 'z' {
            let u = ascii_upper(c);
            assert(u as u32 == (c as u32) - 32);
            assert('A' <= u && u <= 'Z');
            assert(ascii_lower(u) as u32 == c as u32);
        }
    }
    assert(ascii_lower_seq(ascii_upper_seq(s)) =~= ascii_lower_seq(s));
}

/// `str::to_ascii_lowercase` on a character sequence.
pub open spec fn ascii_lower_seq(s: Seq<char>) -> Seq<char> {
    s.map_values(|c: char| ascii_lower(c))
}

pub fn to_ascii_lowercase(s: &str) -> (r: Vec<char>)
    ensures
        r@ == ascii_lower_seq(s@),
{
    let v = chars_of(s);
    let mut r: Vec<char> = Vec::new();
    let mut i: usize = 0;
    while i < v.len()
        invariant
            i <= v@.len(),
            v@ == s@,
            r@ == ascii_lower_seq(v@.take(i as int)),
        decreases v@.len() - i,
    {
        r.push(ascii_lower_char(v[i]));
        assert(ascii_lower_seq(v@.take(i as int)).push(ascii_lower(v@[i as int])) =~= ascii_lower_seq(
            v@.take(i + 1),
        ));
        i = i + 1;
    }
    assert(v@.take(v@.len() as int) =~= v@);
    r
}

/// What `char::to_digit(10)` accepts.
pub open spec fn is_digit(c: char) -> bool {
    '0' <= c && c <= '9'
}

pub open spec fn digit_value(c: char) -> int {
    (c as u32) - ('0' as u32)
}


// ---------------------------------------------------------------------
// trimming
// ---------------------------------------------------------------------

/// `str::trim_start`: drop the leading whitespace.
pub open spec fn trim_start(s: Seq<char>) -> Seq<char>
    decreases s.len(),
{
    if s.len() > 0 && is_ws(s[0]) {
        trim_start(s.drop_first())
    } else {
        s
    }
}

/// `str::trim_end`: drop the trailing whitespace.
pub open spec fn trim_end(s: Seq<char>) -> Seq<char>
    decreases s.len(),
{
    if s.len() > 0 && is_ws(s.last()) {
        trim_end(s.drop_last())
    } else {
        s
    }
}

/// `str::trim`.
pub open spec fn trim(s: Seq<char>) -> Seq<char> {
    trim_end(trim_start(s))
}

/// `str::trim_start_matches(c)` for one character `c`.
pub open spec fn strip_lead(s: Seq<char>, c: char) -> Seq<char>
    decreases s.len(),
{
    if s.len() > 0 && s[0] == c {
        strip_lead(s.drop_first(), c)
    } else {
        s
    }
}

/// `str::trim_end_matches(c)` for one character `c`.
pub open spec fn strip_trail(s: Seq<char>, c: char) -> Seq<char>
    decreases s.len(),
{
    if s.len() > 0 && s.last() == c {
        strip_trail(s.drop_last(), c)
    } else {
        s
    }
}

/// `str::trim_matches(c)` for one character `c`.
pub open spec fn strip_both(s: Seq<char>, c: char) -> Seq<char> {
    strip_trail(strip_lead(s, c), c)
}

pub proof fn lemma_trim_start_suffix(s: Seq<char>, i: int)
    requires
        0 <= i <= s.len(),
        forall|j: int| 0 <= j < i ==> is_ws(#[trigger] s[j]),
    ensures
        trim_start(s) == trim_start(s.subrange(i, s.len() as int)),
    decreases i,
{
    if i > 0 {
        assert(s.drop_first() =~= s.subrange(1, s.len() as int));
        lemma_trim_start_suffix(s.drop_first(), i - 1);
        assert(s.drop_first().subrange(i - 1, s.drop_first().len() as int) =~= s.subrange(
            i,
            s.len() as int,
        ));
    } else {
        assert(s.subrange(0, s.len() as int) =~= s);
    }
}

pub proof fn lemma_trim_end_prefix(s: Seq<char>, k: int)
    requires
        0 <= k <= s.len(),
        forall|j: int| k <= j < s.len() ==> is_ws(#[trigger] s[j]),
    ensures
        trim_end(s) == trim_end(s.subrange(0, k)),
    decreases s.len() - k,
{
    if k < s.len() {
        lemma_trim_end_prefix(s.drop_last(), k);
        assert(s.drop_last().subrange(0, k) =~= s.subrange(0, k));
    } else {
        assert(s.subrange(0, s.len() as int) =~= s);
    }
}


/// `str::trim_start` on a character slice.
pub fn trim_start_chars(v: &[char]) -> (r: Vec<char>)
    ensures
        r@ == trim_start(v@),
{
    let mut i: usize = 0;
    while i < v.len() && is_whitespace(v[i])
        invariant
            i <= v@.len(),
            forall|j: int| 0 <= j < i ==> is_ws(#[trigger] v@[j]),
        decreases v@.len() - i,
    {
        i = i + 1;
    }
    let r = sub_vec(v, i, v.len());
    proof {
        lemma_trim_start_suffix(v@, i as int);
        if r@.len() > 0 {
            assert(!is_ws(r@[0]));
        }
        assert(trim_start(r@) == r@);
    }
    r
}

/// `str::trim_end` on a character slice.
pub fn trim_end_chars(v: &[char]) -> (r: Vec<char>)
    ensures
        r@ == trim_end(v@),
{
    let mut k: usize = v.len();
    while k > 0 && is_whitespace(v[k - 1])
        invariant
            k <= v@.len(),
            forall|j: int| k <= j < v@.len() ==> is_ws(#[trigger] v@[j]),
        decreases k,
    {
        k = k - 1;
    }
    let r = sub_vec(v, 0, k);
    proof {
        lemma_trim_end_prefix(v@, k as int);
        if r@.len() > 0 {
            assert(r@.last() == v@[k - 1]);
        }
        assert(trim_end(r@) == r@);
    }
    r
}


/// What `trim_end` leaves does not end in whitespace.
pub proof fn lemma_trim_end_last(s: Seq<char>)
    ensures
        trim_end(s).len() > 0 ==> !is_ws(trim_end(s).last()),
    decreases s.len(),
{
    if s.len() > 0 && is_ws(s.last()) {
        lemma_trim_end_last(s.drop_last());
    }
}

/// `str::trim` on a character slice.
pub fn trim_chars(v: &[char]) -> (r: Vec<char>)
    ensures
        r@ == trim(v@),
{
    let mut i: usize = 0;
    while i < v.len() && is_whitespace(v[i])
        invariant
            i <= v@.len(),
            forall|j: int| 0 <= j < i ==> is_ws(#[trigger] v@[j]),
        decreases v@.len() - i,
    {
        i = i + 1;
    }
    proof {
        lemma_trim_start_suffix(v@, i as int);
        let t = v@.subrange(i as int, v@.len() as int);
        if t.len() > 0 {
            assert(!is_ws(t[0]));
        }
        assert(trim_start(t) == t);
    }
    let mut k: usize = v.len();
    while k > i && is_whitespace(v[k - 1])
        invariant
            i <= k <= v@.len(),
            forall|j: int| k <= j < v@.len() ==> is_ws(#[trigger] v@[j]),
        decreases k,
    {
        k = k - 1;
    }
    let r = sub_vec(v, i, k);
    proof {
        let t = v@.subrange(i as int, v@.len() as int);
        lemma_trim_end_prefix(t, (k - i) as int);
        assert(t.subrange(0, (k - i) as int) =~= r@);
        if r@.len() > 0 {
            assert(r@.last() == v@[k - 1]);
        }
        assert(trim_end(r@) == r@);
    }
    r
}

pub proof fn lemma_strip_lead_suffix(s: Seq<char>, c: char, i: int)
    requires
        0 <= i <= s.len(),
        forall|j: int| 0 <= j < i ==> #[trigger] s[j] == c,
    ensures
        strip_lead(s, c) == strip_lead(s.subrange(i, s.len() as int), c),
    decreases i,
{
    if i > 0 {
        assert(s.drop_first() =~= s.subrange(1, s.len() as int));
        lemma_strip_lead_suffix(s.drop_first(), c, i - 1);
        assert(s.drop_first().subrange(i - 1, s.drop_first().len() as int) =~= s.subrange(
            i,
            s.len() as int,
        ));
    } else {
        assert(s.subrange(0, s.len() as int) =~= s);
    }
}

pub proof fn lemma_strip_trail_prefix(s: Seq<char>, c: char, k: int)
    requires
        0 <= k <= s.len(),
        forall|j: int| k <= j < s.len() ==> #[trigger] s[j] == c,
    ensures
        strip_trail(s, c) == strip_trail(s.subrange(0, k), c),
    decreases s.len() - k,
{
    if k < s.len() {
        lemma_strip_trail_prefix(s.drop_last(), c, k);
        assert(s.drop_last().subrange(0, k) =~= s.subrange(0, k));
    } else {
        assert(s.subrange(0, s.len() as int) =~= s);
    }
}

/// `str::trim_start_matches(c)`.
pub fn strip_lead_chars(v: &[char], c: char) -> (r: Vec<char>)
    ensures
        r@ == strip_lead(v@, c),
{
    let mut i: usize = 0;
    while i < v.len() && v[i] == c
        invariant
            i <= v@.len(),
            forall|j: int| 0 <= j < i ==> #[trigger] v@[j] == c,
        decreases v@.len() - i,
    {
        i = i + 1;
    }
    let r = sub_vec(v, i, v.len());
    proof {
        lemma_strip_lead_suffix(v@, c, i as int);
        if r@.len() > 0 {
            assert(r@[0] == v@[i as int]);
        }
        assert(strip_lead(r@, c) == r@);
    }
    r
}

/// `str::trim_matches(c)`.
pub fn strip_both_chars(v: &[char], c: char) -> (r: Vec<char>)
    ensures
        r@ == strip_both(v@, c),
{
    let t = strip_lead_chars(v, c);
    let mut k: usize = t.len();
    while k > 0 && t[k - 1] == c
        invariant
            k <= t@.len(),
            forall|j: int| k <= j < t@.len() ==> #[trigger] t@[j] == c,
        decreases k,
    {
        k = k - 1;
    }
    let r = sub_vec(t.as_slice(), 0, k);
    proof {
        lemma_strip_trail_prefix(t@, c, k as int);
        if r@.len() > 0 {
            assert(r@.last() == t@[k - 1]);
        }
        assert(strip_trail(r@, c) == r@);
    }
    r
}

// ---------------------------------------------------------------------
// splitting
// ---------------------------------------------------------------------

/// `split(sep)`: the pieces between occurrences of `sep` (always at least
/// one piece; a trailing separator yields a final empty piece).
pub open spec fn split_on<T>(s: Seq<T>, sep: T) -> Seq<Seq<T>>
    decreases s.len(),
{
    if s.len() == 0 {
        seq![Seq::<T>::empty()]
    } else {
        let p = split_on(s.drop_last(), sep);
        if s.last() == sep {
            p.push(Seq::<T>::empty())
        } else {
            p.update(p.len() - 1, p.last().push(s.last()))
        }
    }
}

pub proof fn lemma_split_on_nonempty<T>(s: Seq<T>, sep: T)
    ensures
        split_on(s, sep).len() >= 1,
    decreases s.len(),
{
    if s.len() > 0 {
        lemma_split_on_nonempty(s.drop_last(), sep);
    }
}

/// The first piece of `split(sep)`: everything before the first `sep`.
pub open spec fn before_first<T>(s: Seq<T>, sep: T) -> Seq<T> {
    split_on(s, sep)[0]
}

/// The last piece of `split(sep)`, which is what `rsplit(sep).next()`
/// yields: everything after the last `sep`.
pub open spec fn after_last<T>(s: Seq<T>, sep: T) -> Seq<T> {
    split_on(s, sep).last()
}

pub proof fn lemma_before_first<T>(s: Seq<T>, sep: T)
    ensures
        before_first(s, sep).len() <= s.len(),
        before_first(s, sep) =~= s.take(before_first(s, sep).len() as int),
        forall|j: int| 0 <= j < before_first(s, sep).len() ==> s[j] != sep,
        before_first(s, sep).len() < s.len() ==> s[before_first(s, sep).len() as int] == sep,
        (split_on(s, sep).len() == 1) == (before_first(s, sep).len() == s.len()),
    decreases s.len(),
{
    lemma_split_on_nonempty(s, sep);
    if s.len() > 0 {
        let dl = s.drop_last();
        lemma_before_first(dl, sep);
        lemma_split_on_nonempty(dl, sep);
        let p = split_on(dl, sep);
        let bp = p[0];
        if s.last() == sep {
            assert(split_on(s, sep) == p.push(Seq::<T>::empty()));
            assert(before_first(s, sep) == bp);
            assert(bp =~= s.take(bp.len() as int));
        } else {
            let q = p.update(p.len() - 1, p.last().push(s.last()));
            assert(split_on(s, sep) == q);
            if p.len() == 1 {
                assert(before_first(s, sep) == bp.push(s.last()));
                assert(bp.push(s.last()) =~= s);
                assert(s.take(s.len() as int) =~= s);
            } else {
                assert(before_first(s, sep) == bp);
                assert(bp =~= s.take(bp.len() as int));
            }
        }
        assert forall|j: int| 0 <= j < before_first(s, sep).len() implies s[j] != sep by {
            if j < dl.len() {
                assert(s[j] == dl[j]);
            }
        }
    }
}

pub proof fn lemma_after_last<T>(s: Seq<T>, sep: T)
    ensures
        ({
            let a = after_last(s, sep);
            &&& a.len() <= s.len()
            &&& a =~= s.skip(s.len() - a.len())
            &&& forall|j: int| s.len() - a.len() <= j < s.len() ==> s[j] != sep
            &&& a.len() < s.len() ==> s[s.len() - a.len() - 1] == sep
        }),
    decreases s.len(),
{
    lemma_split_on_nonempty(s, sep);
    if s.len() > 0 {
        let dl = s.drop_last();
        lemma_after_last(dl, sep);
        lemma_split_on_nonempty(dl, sep);
        let p = split_on(dl, sep);
        let ap = p.last();
        if s.last() == sep {
            assert(split_on(s, sep) == p.push(Seq::<T>::empty()));
            assert(after_last(s, sep) =~= Seq::<T>::empty());
            assert(s.skip(s.len() as int) =~= Seq::<T>::empty());
        } else {
            let q = p.update(p.len() - 1, ap.push(s.last()));
            assert(split_on(s, sep) == q);
            assert(after_last(s, sep) == ap.push(s.last()));
            assert(ap.push(s.last()) =~= s.skip(s.len() - ap.len() - 1));
            assert forall|j: int| s.len() - ap.len() - 1 <= j < s.len() implies s[j] != sep by {
                if j < s.len() - 1 {
                    assert(s[j] == dl[j]);
                }
            }
            if ap.len() + 1 < s.len() {
                assert(s[s.len() - ap.len() - 2] == dl[dl.len() - ap.len() - 1]);
            }
        }
    }
}

/// `split(sep)` over a character slice.
pub fn split_chars(v: &[char], sep: char) -> (r: Vec<Vec<char>>)
    ensures
        r@.len() == split_on(v@, sep).len(),
        forall|k: int| 0 <= k < r@.len() ==> #[trigger] r@[k]@ == split_on(v@, sep)[k],
{
    let mut done: Vec<Vec<char>> = Vec::new();
    let mut cur: Vec<char> = Vec::new();
    let mut i: usize = 0;
    while i < v.len()
        invariant
            i <= v@.len(),
            done@.len() + 1 == split_on(v@.take(i as int), sep).len(),
            forall|k: int|
                0 <= k < done@.len() ==> #[trigger] done@[k]@ == split_on(v@.take(i as int), sep)[k],
            cur@ == split_on(v@.take(i as int), sep).last(),
        decreases v@.len() - i,
    {
        proof {
            lemma_split_on_nonempty(v@.take(i as int), sep);
            assert(v@.take(i + 1).drop_last() =~= v@.take(i as int));
        }
        if v[i] == sep {
            done.push(cur);
            cur = Vec::new();
        } else {
            cur.push(v[i]);
        }
        i = i + 1;
    }
    assert(v@.take(v@.len() as int) =~= v@);
    done.push(cur);
    done
}

/// `split(sep)` over a byte slice.
pub fn split_bytes(v: &[u8], sep: u8) -> (r: Vec<Vec<u8>>)
    ensures
        r@.len() == split_on(v@, sep).len(),
        forall|k: int| 0 <= k < r@.len() ==> #[trigger] r@[k]@ == split_on(v@, sep)[k],
{
    let mut done: Vec<Vec<u8>> = Vec::new();
    let mut cur: Vec<u8> = Vec::new();
    let mut i: usize = 0;
    while i < v.len()
        invariant
            i <= v@.len(),
            done@.len() + 1 == split_on(v@.take(i as int), sep).len(),
            forall|k: int|
                0 <= k < done@.len() ==> #[trigger] done@[k]@ == split_on(v@.take(i as int), sep)[k],
            cur@ == split_on(v@.take(i as int), sep).last(),
        decreases v@.len() - i,
    {
        proof {
            lemma_split_on_nonempty(v@.take(i as int), sep);
            assert(v@.take(i + 1).drop_last() =~= v@.take(i as int));
        }
        if v[i] == sep {
            done.push(cur);
            cur = Vec::new();
        } else {
            cur.push(v[i]);
        }
        i = i + 1;
    }
    assert(v@.take(v@.len() as int) =~= v@);
    done.push(cur);
    done
}


/// A line without its carriage return, as `str::lines` yields lines that
/// ended in `\r\n`.
pub open spec fn strip_cr(l: Seq<char>) -> Seq<char> {
    if l.len() > 0 && l.last() == '\r' {
        l.drop_last()
    } else {
        l
    }
}

/// `str::lines`: the text split at `\n` (and `\r\n`) line endings, without
/// the endings; a final line ending adds no empty line.
pub open spec fn lines(s: Seq<char>) -> Seq<Seq<char>> {
    let p = split_on(s, '\n');
    let body = p.drop_last().map_values(|l: Seq<char>| strip_cr(l));
    if p.last().len() == 0 {
        body
    } else {
        body.push(p.last())
    }
}

/// `str::lines` over a character slice.
pub fn lines_of(v: &[char]) -> (r: Vec<Vec<char>>)
    ensures
        r@.len() == lines(v@).len(),
        forall|k: int| 0 <= k < r@.len() ==> #[trigger] r@[k]@ == lines(v@)[k],
{
    let pieces = split_chars(v, '\n');
    let ghost p = split_on(v@, '\n');
    proof {
        lemma_split_on_nonempty(v@, '\n');
    }
    let n = pieces.len();
    let mut r: Vec<Vec<char>> = Vec::new();
    let mut i: usize = 0;
    while i + 1 < n
        invariant
            n == p.len(),
            n >= 1,
            pieces@.len() == n,
            forall|k: int| 0 <= k < n ==> #[trigger] pieces@[k]@ == p[k],
            i + 1 <= n,
            r@.len() == i,
            forall|k: int| 0 <= k < i ==> #[trigger] r@[k]@ == strip_cr(p[k]),
        decreases n - i,
    {
        let l = &pieces[i];
        let m = l.len();
        if m > 0 && l[m - 1] == '\r' {
            let cut = sub_vec(l.as_slice(), 0, m - 1);
            assert(cut@ =~= strip_cr(p[i as int]));
            r.push(cut);
        } else {
            r.push(l.clone());
        }
        i = i + 1;
    }
    let last = &pieces[n - 1];
    if last.len() > 0 {
        r.push(last.clone());
    }
    r
}

/// `split_once(sep)` for a single-character separator.
pub open spec fn split_once_char(s: Seq<char>, sep: char) -> Option<(Seq<char>, Seq<char>)> {
    let b = before_first(s, sep);
    if b.len() < s.len() {
        Some((b, s.skip(b.len() as int + 1)))
    } else {
        None
    }
}

pub fn split_once_chars(v: &[char], sep: char) -> (r: Option<(Vec<char>, Vec<char>)>)
    ensures
        match r {
            Some((a, b)) => split_once_char(v@, sep) == Some((a@, b@)),
            None => split_once_char(v@, sep) is None,
        },
{
    let mut i: usize = 0;
    while i < v.len() && v[i] != sep
        invariant
            i <= v@.len(),
            forall|j: int| 0 <= j < i ==> #[trigger] v@[j] != sep,
        decreases v@.len() - i,
    {
        i = i + 1;
    }
    proof {
        lemma_before_first(v@, sep);
        let b = before_first(v@, sep);
        if b.len() < i {
            assert(v@[b.len() as int] == sep);
        }
        if (b.len() as int) > (i as int) {
            assert(v@[i as int] == sep);
            assert(v@[i as int] != sep);
        }
        assert(b.len() == i);
    }
    if i == v.len() {
        None
    } else {
        let a = sub_vec(v, 0, i);
        let b = sub_vec(v, i + 1, v.len());
        proof {
            let bf = before_first(v@, sep);
            assert(a@ =~= bf);
            assert(b@ =~= v@.skip(bf.len() as int + 1));
        }
        Some((a, b))
    }
}

/// `rsplit(sep).next()`: the part after the last `sep`.
pub fn after_last_chars(v: &[char], sep: char) -> (r: Vec<char>)
    ensures
        r@ == after_last(v@, sep),
{
    let mut k: usize = v.len();
    while k > 0 && v[k - 1] != sep
        invariant
            k <= v@.len(),
            forall|j: int| k <= j < v@.len() ==> #[trigger] v@[j] != sep,
        decreases k,
    {
        k = k - 1;
    }
    let r = sub_vec(v, k, v.len());
    proof {
        lemma_after_last(v@, sep);
        let a = after_last(v@, sep);
        let start = v@.len() - a.len();
        if start > k {
            assert(v@[start - 1] == sep);
        }
        if start < k {
            assert(v@[k - 1] == sep);
        }
        assert(r@ =~= a);
    }
    r
}

/// `split_whitespace`: the maximal runs of non-whitespace characters.
pub open spec fn words(s: Seq<char>) -> Seq<Seq<char>> {
    split_on_ws(s).filter(|w: Seq<char>| w.len() > 0)
}

/// The pieces between single whitespace characters.
pub open spec fn split_on_ws(s: Seq<char>) -> Seq<Seq<char>>
    decreases s.len(),
{
    if s.len() == 0 {
        seq![Seq::<char>::empty()]
    } else {
        let p = split_on_ws(s.drop_last());
        if is_ws(s.last()) {
            p.push(Seq::<char>::empty())
        } else {
            p.update(p.len() - 1, p.last().push(s.last()))
        }
    }
}

pub proof fn lemma_split_on_ws_nonempty(s: Seq<char>)
    ensures
        split_on_ws(s).len() >= 1,
    decreases s.len(),
{
    if s.len() > 0 {
        lemma_split_on_ws_nonempty(s.drop_last());
    }
}

/// `split_whitespace` over a character slice.
pub fn words_of(v: &[char]) -> (r: Vec<Vec<char>>)
    ensures
        r@.len() == words(v@).len(),
        forall|k: int| 0 <= k < r@.len() ==> #[trigger] r@[k]@ == words(v@)[k],
{
    let mut done: Vec<Vec<char>> = Vec::new();
    let mut cur: Vec<char> = Vec::new();
    let mut i: usize = 0;
    let ghost pred = |w: Seq<char>| w.len() > 0;
    while i < v.len()
        invariant
            i <= v@.len(),
            pred == (|w: Seq<char>| w.len() > 0),
            done@.len() == split_on_ws(v@.take(i as int)).drop_last().filter(pred).len(),
            forall|k: int|
                0 <= k < done@.len() ==> #[trigger] done@[k]@ == split_on_ws(
                    v@.take(i as int),
                ).drop_last().filter(pred)[k],
            cur@ == split_on_ws(v@.take(i as int)).last(),
        decreases v@.len() - i,
    {
        proof {
            lemma_split_on_ws_nonempty(v@.take(i as int));
            assert(v@.take(i + 1).drop_last() =~= v@.take(i as int));
        }
        let ghost old_done = done@.map_values(|x: Vec<char>| x@);
        let ghost p = split_on_ws(v@.take(i as int));
        if is_whitespace(v[i]) {
            proof {
                assert(split_on_ws(v@.take(i + 1)) == p.push(Seq::<char>::empty()));
                assert(split_on_ws(v@.take(i + 1)).drop_last() =~= p);
                assert(p =~= p.drop_last().push(p.last()));
                p.drop_last().lemma_filter_push(p.last(), pred);
            }
            if cur.len() > 0 {
                done.push(cur);
            }
            cur = Vec::new();
        } else {
            cur.push(v[i]);
            proof {
                let q = split_on_ws(v@.take(i + 1));
                assert(q == p.update(p.len() - 1, p.last().push(v@[i as int])));
                assert(q.drop_last() =~= p.drop_last());
            }
        }
        i = i + 1;
    }
    proof {
        assert(v@.take(v@.len() as int) =~= v@);
        let p = split_on_ws(v@);
        lemma_split_on_ws_nonempty(v@);
        assert(p =~= p.drop_last().push(p.last()));
        p.drop_last().lemma_filter_push(p.last(), pred);
    }
    if cur.len() > 0 {
        done.push(cur);
    }
    done
}

// ---------------------------------------------------------------------
// searching
// ---------------------------------------------------------------------

/// `pat` occurs in `s` starting at `i`.
pub open spec fn occurs_at(s: Seq<char>, pat: Seq<char>, i: int) -> bool {
    0 <= i && i + pat.len() <= s.len() && s.subrange(i, i + pat.len()) == pat
}

/// `str::contains(pat)`.
pub open spec fn contains(s: Seq<char>, pat: Seq<char>) -> bool {
    exists|i: int| occurs_at(s, pat, i)
}

/// `str::starts_with(pat)`.
pub open spec fn starts_with(s: Seq<char>, pat: Seq<char>) -> bool {
    occurs_at(s, pat, 0)
}

/// Whether `pat` occurs at position `i` of `v`.
pub fn occurs_at_exec(v: &[char], pat: &[char], i: usize) -> (r: bool)
    ensures
        r == occurs_at(v@, pat@, i as int),
{
    if i > v.len() || pat.len() > v.len() - i {
        return false;
    }
    let mut j: usize = 0;
    let n = v.len();
    while j < pat.len()
        invariant
            n == v@.len(),
            i + pat@.len() <= v@.len(),
            j <= pat@.len(),
            forall|k: int| 0 <= k < j ==> v@[i + k] == pat@[k],
        decreases pat@.len() - j,
    {
        if v[i + j] != pat[j] {
            assert(v@.subrange(i as int, i + pat@.len())[j as int] != pat@[j as int]);
            return false;
        }
        j = j + 1;
    }
    assert(v@.subrange(i as int, i + pat@.len()) =~= pat@);
    true
}

/// The first position at which `pat` occurs in `s`, if any.
#[verifier::opaque]
pub open spec fn first_occurrence(s: Seq<char>, pat: Seq<char>) -> Option<int> {
    if contains(s, pat) {
        Some(choose|i: int| occurs_at(s, pat, i) && forall|j: int| 0 <= j < i ==> !occurs_at(s, pat, j))
    } else {
        None
    }
}

/// Searches `v` for `pat`; returns the first position, if any.
pub fn find_chars(v: &[char], pat: &[char]) -> (r: Option<usize>)
    ensures
        match r {
            Some(i) => first_occurrence(v@, pat@) == Some(i as int) && occurs_at(v@, pat@, i as int),
            None => first_occurrence(v@, pat@) is None,
        },
        r is Some == contains(v@, pat@),
{
    reveal(first_occurrence);
    if pat.len() > v.len() {
        assert forall|j: int| !occurs_at(v@, pat@, j) by {}
        return None;
    }
    let last = v.len() - pat.len();
    let mut i: usize = 0;
    while i < last
        invariant
            last == v@.len() - pat@.len(),
            i <= last,
            forall|j: int| 0 <= j < i ==> !occurs_at(v@, pat@, j),
        decreases last - i,
    {
        if occurs_at_exec(v, pat, i) {
            proof {
                reveal(first_occurrence);
                assert(contains(v@, pat@));
                let w = choose|k: int|
                    occurs_at(v@, pat@, k) && forall|j: int| 0 <= j < k ==> !occurs_at(v@, pat@, j);
                assert(occurs_at(v@, pat@, w) && forall|j: int| 0 <= j < w ==> !occurs_at(v@, pat@, j));
                if w > i {
                    assert(!occurs_at(v@, pat@, i as int));
                }
            }
            return Some(i);
        }
        i = i + 1;
    }
    if occurs_at_exec(v, pat, last) {
        proof {
            assert(contains(v@, pat@));
            let w = choose|k: int|
                occurs_at(v@, pat@, k) && forall|j: int| 0 <= j < k ==> !occurs_at(v@, pat@, j);
            assert(occurs_at(v@, pat@, w) && forall|j: int| 0 <= j < w ==> !occurs_at(v@, pat@, j));
            if w > last {
                assert(!occurs_at(v@, pat@, w));
            }
        }
        return Some(last);
    }
    proof {
        assert forall|j: int| !occurs_at(v@, pat@, j) by {
            if 0 <= j < last {
            } else if j == last {
            }
        }
    }
    None
}

/// `str::contains(pat)` on character slices.
pub fn contains_chars(v: &[char], pat: &[char]) -> (r: bool)
    ensures
        r == contains(v@, pat@),
{
    find_chars(v, pat).is_some()
}

/// `str::contains(pat)` on strings.
pub fn str_contains(s: &str, pat: &str) -> (r: bool)
    ensures
        r == contains(s@, pat@),
{
    let v = chars_of(s);
    let p = chars_of(pat);
    contains_chars(v.as_slice(), p.as_slice())
}


/// `str::trim_start_matches(pat)` for a string pattern: `pat` removed from
/// the front as many times as it repeats there.
pub open spec fn strip_prefixes(s: Seq<char>, pat: Seq<char>) -> Seq<char>
    decreases s.len(),
{
    if pat.len() > 0 && starts_with(s, pat) {
        strip_prefixes(s.skip(pat.len() as int), pat)
    } else {
        s
    }
}

pub fn strip_prefixes_chars(v: &[char], pat: &[char]) -> (r: Vec<char>)
    ensures
        r@ == strip_prefixes(v@, pat@),
{
    let n = v.len();
    let mut i: usize = 0;
    assert(v@.skip(0) =~= v@);
    while pat.len() > 0 && occurs_at_exec(v, pat, i)
        invariant
            n == v@.len(),
            i <= n,
            strip_prefixes(v@, pat@) == strip_prefixes(v@.skip(i as int), pat@),
        decreases n - i,
    {
        proof {
            let rest = v@.skip(i as int);
            assert(rest.subrange(0, pat@.len() as int) =~= v@.subrange(
                i as int,
                i + pat@.len(),
            ));
            assert(rest.skip(pat@.len() as int) =~= v@.skip(i + pat@.len()));
        }
        i = i + pat.len();
    }
    proof {
        let rest = v@.skip(i as int);
        if pat@.len() > 0 && starts_with(rest, pat@) {
            assert(rest.subrange(0, pat@.len() as int) =~= v@.subrange(
                i as int,
                i + pat@.len(),
            ));
        }
    }
    let r = sub_vec(v, i, n);
    assert(r@ =~= v@.skip(i as int));
    r
}

/// `str::split_once(pat)` for a multi-character separator.
pub open spec fn split_once_seq(s: Seq<char>, pat: Seq<char>) -> Option<(Seq<char>, Seq<char>)> {
    match first_occurrence(s, pat) {
        Some(i) => Some((s.take(i), s.skip(i + pat.len()))),
        None => None,
    }
}

pub fn split_once_pat(v: &[char], pat: &[char]) -> (r: Option<(Vec<char>, Vec<char>)>)
    ensures
        match r {
            Some((a, b)) => split_once_seq(v@, pat@) == Some((a@, b@)),
            None => split_once_seq(v@, pat@) is None,
        },
{
    match find_chars(v, pat) {
        Some(i) => {
            let n = v.len();
            let m = pat.len();
            assert(i + m <= n);
            let a = sub_vec(v, 0, i);
            let b = sub_vec(v, i + pat.len(), v.len());
            assert(a@ =~= v@.take(i as int));
            assert(b@ =~= v@.skip(i + pat@.len()));
            Some((a, b))
        },
        None => None,
    }
}

// ---------------------------------------------------------------------
// joining
// ---------------------------------------------------------------------

/// `join(sep)`: the pieces with `sep` between consecutive ones.
pub open spec fn join(pieces: Seq<Seq<char>>, sep: Seq<char>) -> Seq<char>
    decreases pieces.len(),
{
    if pieces.len() == 0 {
        Seq::empty()
    } else if pieces.len() == 1 {
        pieces[0]
    } else {
        join(pieces.drop_last(), sep) + sep + pieces.last()
    }
}

/// Joins character vectors with `sep`.
pub fn join_chars(pieces: &Vec<Vec<char>>, sep: &str) -> (r: String)
    ensures
        r@ == join(pieces@.map_values(|p: Vec<char>| p@), sep@),
{
    let ghost views = pieces@.map_values(|p: Vec<char>| p@);
    let mut r = String::new();
    let mut i: usize = 0;
    while i < pieces.len()
        invariant
            i <= pieces@.len(),
            views == pieces@.map_values(|p: Vec<char>| p@),
            r@ == join(views.take(i as int), sep@),
        decreases pieces@.len() - i,
    {
        assert(views.take(i + 1).drop_last() =~= views.take(i as int));
        if i > 0 {
            push_str(&mut r, sep);
        }
        push_chars(&mut r, pieces[i].as_slice());
        proof {
            if i == 0 {
                assert(views.take(1) =~= seq![views[0]]);
            }
        }
        i = i + 1;
    }
    assert(views.take(pieces@.len() as int) =~= views);
    r
}


// ---------------------------------------------------------------------
// decimal numbers
// ---------------------------------------------------------------------

/// The value of a run of decimal digits.
pub open spec fn digits_value(s: Seq<char>) -> int
    decreases s.len(),
{
    if s.len() == 0 {
        0
    } else {
        digits_value(s.drop_last()) * 10 + digit_value(s.last())
    }
}

pub open spec fn all_digits(s: Seq<char>) -> bool {
    forall|i: int| 0 <= i < s.len() ==> is_digit(#[trigger] s[i])
}

/// `str::parse::<i64>`: an optional `+` or `-`, then one or more decimal
/// digits, with a value inside the range of `i64`.
pub open spec fn parse_int(s: Seq<char>) -> Option<i64> {
    let neg = s.len() > 0 && s[0] == '-';
    let d = if s.len() > 0 && (s[0] == '+' || s[0] == '-') {
        s.drop_first()
    } else {
        s
    };
    let v = if neg {
        -digits_value(d)
    } else {
        digits_value(d)
    };
    if d.len() == 0 || !all_digits(d) || v < i64::MIN || v > i64::MAX {
        None
    } else {
        Some(v as i64)
    }
}

pub proof fn lemma_digits_value_nonneg(s: Seq<char>)
    requires
        all_digits(s),
    ensures
        digits_value(s) >= 0,
    decreases s.len(),
{
    if s.len() > 0 {
        lemma_digits_value_nonneg(s.drop_last());
    }
}

pub proof fn lemma_digits_value_monotone(s: Seq<char>, k: int)
    requires
        all_digits(s),
        0 <= k <= s.len(),
    ensures
        digits_value(s.take(k)) <= digits_value(s),
    decreases s.len() - k,
{
    if k < s.len() {
        assert(s.take(k + 1).drop_last() =~= s.take(k));
        assert(all_digits(s.take(k + 1)));
        lemma_digits_value_nonneg(s.take(k));
        lemma_digits_value_monotone(s, k + 1);
    } else {
        assert(s.take(k) =~= s);
    }
}

/// `str::parse::<i64>` on a character slice.
pub fn parse_i64(v: &[char]) -> (r: Option<i64>)
    ensures
        r == parse_int(v@),
{
    let n = v.len();
    let mut start: usize = 0;
    let mut neg = false;
    if n > 0 && (v[0] == '+' || v[0] == '-') {
        start = 1;
        neg = v[0] == '-';
    }
    let ghost d = if v@.len() > 0 && (v@[0] == '+' || v@[0] == '-') {
        v@.drop_first()
    } else {
        v@
    };
    assert(d =~= v@.subrange(start as int, n as int));
    if start == n {
        return None;
    }
    let limit: u128 = 0x8000_0000_0000_0000;
    let mut mag: u128 = 0;
    let mut i: usize = start;
    while i < n
        invariant
            n == v@.len(),
            start <= i <= n,
            d =~= v@.subrange(start as int, n as int),
            d == (if v@.len() > 0 && (v@[0] == '+' || v@[0] == '-') {
                v@.drop_first()
            } else {
                v@
            }),
            neg == (v@.len() > 0 && v@[0] == '-'),
            d.len() > 0,
            all_digits(d.take(i - start)),
            mag == digits_value(d.take(i - start)),
            mag <= limit,
            limit == 0x8000_0000_0000_0000u128,
        decreases n - i,
    {
        let c = v[i];
        assert(c == d[i - start]);
        if !('0' <= c && c <= '9') {
            assert(!is_digit(d[i - start]));
            assert(!all_digits(d));
            return None;
        }
        let dv = (c as u32) - ('0' as u32);
        assert(d.take(i - start + 1).drop_last() =~= d.take(i - start));
        mag = mag * 10 + (dv as u128);
        assert(all_digits(d.take(i - start + 1)));
        if mag > limit {
            proof {
                if all_digits(d) {
                    lemma_digits_value_monotone(d, i - start + 1);
                    assert(digits_value(d) > limit);
                }
            }
            return None;
        }
        i = i + 1;
    }
    assert(d.take(n - start) =~= d);
    if neg {
        Some((0i128 - (mag as i128)) as i64)
    } else if mag == limit {
        None
    } else {
        Some(mag as i64)
    }
}

/// `str::parse::<i64>`.
pub fn parse_i64_str(s: &str) -> (r: Option<i64>)
    ensures
        r == parse_int(s@),
{
    let v = chars_of(s);
    parse_i64(v.as_slice())
}

/// The decimal digit character for `d` (0..9).
pub open spec fn digit_char(d: int) -> char {
    (('0' as u32) + d) as char
}

/// Decimal representation of a natural number.
pub open spec fn nat_dec(n: nat) -> Seq<char>
    decreases n,
{
    if n < 10 {
        seq![digit_char(n as int)]
    } else {
        nat_dec(n / 10).push(digit_char((n % 10) as int))
    }
}

/// The `Display` form of an integer: decimal, with a leading `-` when
/// negative.
pub open spec fn int_dec(n: int) -> Seq<char> {
    if n < 0 {
        seq!['-'] + nat_dec((-n) as nat)
    } else {
        nat_dec(n as nat)
    }
}

/// Appends the decimal digits of `n`.
pub fn push_u64(s: &mut String, n: u64)
    ensures
        final(s)@ == old(s)@ + nat_dec(n as nat),
    decreases n,
{
    if n >= 10 {
        push_u64(s, n / 10);
    }
    let d = (n % 10) as u8;
    push_char(s, (48u8 + d) as char);
    proof {
        assert((48u8 + d) as char == digit_char((n % 10) as int));
        if n >= 10 {
            assert(old(s)@ + nat_dec(n as nat) =~= (old(s)@ + nat_dec((n / 10) as nat)).push(
                digit_char((n % 10) as int),
            ));
        } else {
            assert(old(s)@ + nat_dec(n as nat) =~= old(s)@.push(digit_char(n as int)));
        }
    }
}

/// Appends the `Display` form of `n`.
pub fn push_i64(s: &mut String, n: i64)
    ensures
        final(s)@ == old(s)@ + int_dec(n as int),
{
    if n < 0 {
        push_char(s, '-');
        let m: u64 = (0i128 - (n as i128)) as u64;
        push_u64(s, m);
        assert(old(s)@ + int_dec(n as int) =~= old(s)@.push('-') + nat_dec(m as nat));
    } else {
        push_u64(s, n as u64);
    }
}

/// The `Display` form of a `bool`.
pub open spec fn bool_text(b: bool) -> Seq<char> {
    if b {
        seq!['t', 'r', 'u', 'e']
    } else {
        seq!['f', 'a', 'l', 's', 'e']
    }
}

pub fn push_bool(s: &mut String, b: bool)
    ensures
        final(s)@ == old(s)@ + bool_text(b),
{
    if b {
        push_char(s, 't');
        push_char(s, 'r');
        push_char(s, 'u');
        push_char(s, 'e');
        assert(old(s)@ + bool_text(b) =~= old(s)@.push('t').push('r').push('u').push('e'));
    } else {
        push_char(s, 'f');
        push_char(s, 'a');
        push_char(s, 'l');
        push_char(s, 's');
        push_char(s, 'e');
        assert(old(s)@ + bool_text(b) =~= old(s)@.push('f').push('a').push('l').push('s').push(
            'e',
        ));
    }
}

// ---------------------------------------------------------------------
// UTF-8 decoding (std)
// ---------------------------------------------------------------------

/// The text `String::from_utf8_lossy` decodes from `bytes` (invalid
/// sequences become U+FFFD).
pub uninterp spec fn utf8_lossy(bytes: Seq<u8>) -> Seq<char>;

/// Wraps `String::from_utf8_lossy`: decodes `bytes` as UTF-8, replacing
/// invalid sequences; a function of the bytes alone.
#[verifier::external_body]
pub fn from_utf8_lossy(bytes: &[u8]) -> (r: String)
    ensures
        r@ == utf8_lossy(bytes@),
{
    String::from_utf8_lossy(bytes).into_owned()
}

// ---------------------------------------------------------------------
// Unicode case mapping (std)
// ---------------------------------------------------------------------

/// The Unicode lowercase mapping of a whole string, as `str::to_lowercase`
/// computes it.
pub uninterp spec fn lowercase(s: Seq<char>) -> Seq<char>;

/// Wraps `str::to_lowercase`: the Unicode lowercase form of `s`, a function
/// of `s` alone (std documents it as the `Lowercase` derived property).
#[verifier::external_body]
pub fn to_lowercase(s: &str) -> (r: String)
    ensures
        r@ == lowercase(s@),
{
    s.to_lowercase()
}

/// The characters `char::to_uppercase` yields for one character.
pub uninterp spec fn uppercase_of(c: char) -> Seq<char>;

/// Wraps `char::to_uppercase`: the (one to three) characters of the
/// Unicode uppercase mapping of `c`, a function of `c` alone.
#[verifier::external_body]
pub fn char_to_uppercase(c: char) -> (r: String)
    ensures
        r@ == uppercase_of(c),
{
    c.to_uppercase().collect::<String>()
}

/// Whether `char::is_alphanumeric` holds (Unicode `Alphabetic` or `Numeric`).
pub uninterp spec fn alphanumeric(c: char) -> bool;

/// Wraps `char::is_alphanumeric`, a property of the character alone.
#[verifier::external_body]
pub fn is_alphanumeric(c: char) -> (r: bool)
    ensures
        r == alphanumeric(c),
{
    c.is_alphanumeric()
}

} // verus!
