use vstd::prelude::*;

verus! {

broadcast use vstd::string::group_string_axioms;

// ── Specification vocabulary over character sequences ─────────────────

/// `p` is a prefix of `s`.
pub open spec fn starts_with(s: Seq<char>, p: Seq<char>) -> bool {
    p.len() <= s.len() && s.subrange(0, p.len() as int) == p
}

/// `p` is a suffix of `s`.
pub open spec fn ends_with(s: Seq<char>, p: Seq<char>) -> bool {
    p.len() <= s.len() && s.subrange(s.len() - p.len(), s.len() as int) == p
}

/// `s` without the prefix `p`, when `s` starts with `p`.
pub open spec fn strip_prefix(s: Seq<char>, p: Seq<char>) -> Option<Seq<char>> {
    if starts_with(s, p) {
        Some(s.subrange(p.len() as int, s.len() as int))
    } else {
        None
    }
}

/// `s` without the suffix `p`, when `s` ends with `p`.
pub open spec fn strip_suffix(s: Seq<char>, p: Seq<char>) -> Option<Seq<char>> {
    if ends_with(s, p) {
        Some(s.subrange(0, s.len() - p.len()))
    } else {
        None
    }
}

/// `s` without the suffix `p` if it has it, else `s` itself.
pub open spec fn without_suffix(s: Seq<char>, p: Seq<char>) -> Seq<char> {
    match strip_suffix(s, p) {
        Some(r) => r,
        None => s,
    }
}

/// A first occurrence found in a prefix is the first occurrence in the whole.
pub proof fn lemma_first_index_prefix<A>(s: Seq<A>, x: A, k: int)
    requires
        0 <= k <= s.len(),
        first_index(s.take(k), x) is Some,
    ensures
        first_index(s, x) == first_index(s.take(k), x),
    decreases s.len(),
{
    if k < s.len() {
        assert(s.drop_last().take(k) == s.take(k));
        lemma_first_index_prefix(s.drop_last(), x, k);
    } else {
        assert(s.take(k) == s);
    }
}

/// What `first_index` finds: the position of the first `x`, or none when `x` is absent.
pub proof fn lemma_first_index<A>(s: Seq<A>, x: A)
    ensures
        first_index(s, x) matches Some(i) ==> 0 <= i < s.len() && s[i] == x && forall|j: int|
            0 <= j < i ==> s[j] != x,
        first_index(s, x) is None ==> forall|j: int| 0 <= j < s.len() ==> s[j] != x,
    decreases s.len(),
{
    if s.len() > 0 {
        lemma_first_index(s.drop_last(), x);
        assert forall|j: int| 0 <= j < s.len() - 1 implies s.drop_last()[j] == s[j] by {}
    }
}

/// The first occurrence of every element of `s`, in order (what a set of the elements
/// seen so far lets through).
pub open spec fn first_occurrences<A>(s: Seq<A>) -> Seq<A>
    decreases s.len(),
{
    if s.len() == 0 {
        Seq::empty()
    } else {
        let r = first_occurrences(s.drop_last());
        if s.drop_last().contains(s.last()) {
            r
        } else {
            r.push(s.last())
        }
    }
}

/// `first_occurrences` keeps every element once: it holds what `s` holds, without repeats.
pub proof fn lemma_first_occurrences<A>(s: Seq<A>)
    ensures
        forall|x: A| #[trigger] first_occurrences(s).contains(x) <==> s.contains(x),
        forall|i: int, j: int|
            0 <= i < j < first_occurrences(s).len() ==> first_occurrences(s)[i]
                != first_occurrences(s)[j],
    decreases s.len(),
{
    if s.len() > 0 {
        let d = s.drop_last();
        lemma_first_occurrences(d);
        let r = first_occurrences(d);
        assert forall|x: A| #[trigger] first_occurrences(s).contains(x) <==> s.contains(x) by {
            if s.contains(x) {
                let k = choose|k: int| 0 <= k < s.len() && s[k] == x;
                if k < s.len() - 1 {
                    assert(d[k] == x);
                    assert(d.contains(x));
                }
            }
            if d.contains(x) {
                let k = choose|k: int| 0 <= k < d.len() && d[k] == x;
                assert(s[k] == x);
            }
            if !d.contains(s.last()) {
                assert(r.push(s.last())[r.len() as int] == s.last());
                if r.push(s.last()).contains(x) {
                    let k = choose|k: int| 0 <= k < r.len() + 1 && r.push(s.last())[k] == x;
                    if k < r.len() {
                        assert(r[k] == x);
                    }
                }
                if r.contains(x) {
                    let k = choose|k: int| 0 <= k < r.len() && r[k] == x;
                    assert(r.push(s.last())[k] == x);
                }
            }
        }
        if !d.contains(s.last()) {
            assert(!r.contains(s.last()));
            let rp = r.push(s.last());
            assert forall|i: int, j: int| 0 <= i < j < rp.len() implies rp[i] != rp[j] by {
                assert(rp[i] == r[i]);
                if j == r.len() {
                    if r[i] == s.last() {
                        assert(r.contains(s.last()));
                    }
                } else {
                    assert(rp[j] == r[j]);
                }
            }
        }
    }
}

/// `p` occurs somewhere inside `s`.
pub open spec fn contains_seq(s: Seq<char>, p: Seq<char>) -> bool {
    exists|i: int| 0 <= i && i + p.len() <= s.len() && #[trigger] s.subrange(i, i + p.len()) == p
}

/// Index of the first occurrence of `x` in `s`.
pub open spec fn first_index<A>(s: Seq<A>, x: A) -> Option<int>
    decreases s.len(),
{
    if s.len() == 0 {
        None
    } else {
        match first_index(s.drop_last(), x) {
            Some(i) => Some(i),
            None => if s.last() == x {
                Some(s.len() - 1)
            } else {
                None
            },
        }
    }
}

/// The pieces of `s` between the separators in `seps` (every separator
/// ends one piece, so `n` separators give `n + 1` pieces).
pub open spec fn split_any(s: Seq<char>, seps: Seq<char>) -> Seq<Seq<char>>
    decreases s.len(),
{
    if s.len() == 0 {
        seq![Seq::<char>::empty()]
    } else {
        let r = split_any(s.drop_last(), seps);
        if seps.contains(s.last()) {
            r.push(Seq::<char>::empty())
        } else {
            r.update(r.len() - 1, r.last().push(s.last()))
        }
    }
}

/// Splitting always gives at least one piece.
pub proof fn lemma_split_any_nonempty(s: Seq<char>, seps: Seq<char>)
    ensures
        split_any(s, seps).len() >= 1,
    decreases s.len(),
{
    if s.len() > 0 {
        lemma_split_any_nonempty(s.drop_last(), seps);
    }
}

/// The pieces of `s` between occurrences of `c`.
pub open spec fn split_char(s: Seq<char>, c: char) -> Seq<Seq<char>> {
    split_any(s, seq![c])
}

/// The text before the first `c` (all of `s` when there is none).
pub open spec fn before_char(s: Seq<char>, c: char) -> Seq<char> {
    match first_index(s, c) {
        Some(i) => s.take(i),
        None => s,
    }
}

/// The text before the first `c` of a concatenation: that of the first part when it
/// holds a `c`, else the whole first part followed by the text before the first `c` of
/// the second.
pub proof fn lemma_before_char_concat(a: Seq<char>, b: Seq<char>, c: char)
    ensures
        before_char(a + b, c) == (if a.contains(c) {
            before_char(a, c)
        } else {
            a + before_char(b, c)
        }),
{
    let t = a + b;
    lemma_first_index(t, c);
    lemma_first_index(a, c);
    lemma_first_index(b, c);
    if a.contains(c) {
        let k = choose|k: int| 0 <= k < a.len() && a[k] == c;
        assert(first_index(a, c) is Some);
        let i = first_index(a, c)->0;
        assert(t[i] == c);
        assert(first_index(t, c) is Some);
        let i2 = first_index(t, c)->0;
        if i2 < i {
            assert(t[i2] == a[i2]);
        } else if i2 > i {
            assert(t[i] != c);
        }
        assert(t.take(i) =~= a.take(i));
    } else {
        assert forall|j: int| 0 <= j < a.len() implies t[j] != c by {
            if a[j] == c {
                assert(a.contains(c));
            }
        }
        match first_index(b, c) {
            Some(i) => {
                assert(t[a.len() + i] == c);
                assert(first_index(t, c) is Some);
                let i2 = first_index(t, c)->0;
                if i2 < a.len() + i {
                    if i2 >= a.len() {
                        assert(b[i2 - a.len()] == t[i2]);
                    }
                } else if i2 > a.len() + i {
                    assert(t[a.len() + i] != c);
                }
                assert(t.take(a.len() + i) =~= a + b.take(i));
            },
            None => {
                if first_index(t, c) is Some {
                    let i2 = first_index(t, c)->0;
                    if i2 >= a.len() {
                        assert(b[i2 - a.len()] == t[i2]);
                    }
                }
            },
        }
    }
}

/// The text around the first `c`, when `s` holds one.
pub open spec fn split_once(s: Seq<char>, c: char) -> Option<(Seq<char>, Seq<char>)> {
    match first_index(s, c) {
        Some(i) => Some((s.take(i), s.skip(i + 1))),
        None => None,
    }
}

/// `s` without every trailing `c`.
pub open spec fn trim_end_char(s: Seq<char>, c: char) -> Seq<char>
    decreases s.len(),
{
    if s.len() > 0 && s.last() == c {
        trim_end_char(s.drop_last(), c)
    } else {
        s
    }
}

/// Whether the character has the Unicode `White_Space` property, which is what
/// `char::is_whitespace` tests: tab to carriage return, space, next line, no-break
/// space, ogham space mark, the spaces from en quad to hair space, line and paragraph
/// separator, narrow no-break space, medium mathematical space and ideographic space.
pub open spec fn is_whitespace(c: char) -> bool {
    let u = c as u32;
    (0x09 <= u && u <= 0x0D) || u == 0x20 || u == 0x85 || u == 0xA0 || u == 0x1680 || (0x2000
        <= u && u <= 0x200A) || u == 0x2028 || u == 0x2029 || u == 0x202F || u == 0x205F || u
        == 0x3000
}

/// Whether std classifies the character as upper case (`char::is_uppercase`).
pub uninterp spec fn is_uppercase(c: char) -> bool;

/// Whether std classifies the character as lower case (`char::is_lowercase`).
pub uninterp spec fn is_lowercase(c: char) -> bool;

/// Whether std classifies the character as alphabetic (`char::is_alphabetic`).
pub uninterp spec fn is_alphabetic(c: char) -> bool;

/// What std's `str::to_lowercase` makes of a string.
pub uninterp spec fn lowercase(s: Seq<char>) -> Seq<char>;

/// What std's `str::to_uppercase` makes of a string.
pub uninterp spec fn uppercase(s: Seq<char>) -> Seq<char>;

/// `s` without leading white space.
pub open spec fn trim_start(s: Seq<char>) -> Seq<char>
    decreases s.len(),
{
    if s.len() > 0 && is_whitespace(s[0]) {
        trim_start(s.drop_first())
    } else {
        s
    }
}

/// `s` without trailing white space.
pub open spec fn trim_end(s: Seq<char>) -> Seq<char>
    decreases s.len(),
{
    if s.len() > 0 && is_whitespace(s.last()) {
        trim_end(s.drop_last())
    } else {
        s
    }
}

/// `s` without leading and trailing white space (`str::trim`).
pub open spec fn trim(s: Seq<char>) -> Seq<char> {
    trim_end(trim_start(s))
}

/// An ASCII decimal digit.
pub open spec fn is_digit(c: char) -> bool {
    '0' <= c && c <= '9'
}

/// The value of a string of decimal digits.
pub open spec fn digits_value(s: Seq<char>) -> nat
    decreases s.len(),
{
    if s.len() == 0 {
        0
    } else {
        digits_value(s.drop_last()) * 10 + ((s.last() as int) - ('0' as int)) as nat
    }
}

/// The digits that an unsigned `FromStr` reads: one leading `+` is allowed.
pub open spec fn unsigned_digits(s: Seq<char>) -> Seq<char> {
    if s.len() > 0 && s[0] == '+' {
        s.drop_first()
    } else {
        s
    }
}

/// What `str::parse` gives for an unsigned integer type whose largest value is `max`:
/// an optional `+`, then at least one decimal digit, and a value no larger than `max`.
pub open spec fn parse_unsigned(s: Seq<char>, max: nat) -> Option<nat> {
    let d = unsigned_digits(s);
    if d.len() > 0 && (forall|i: int| 0 <= i < d.len() ==> is_digit(#[trigger] d[i]))
        && digits_value(d) <= max {
        Some(digits_value(d))
    } else {
        None
    }
}

/// The character of a decimal digit.
pub open spec fn digit_char(d: nat) -> char {
    if d == 0 {
        '0'
    } else if d == 1 {
        '1'
    } else if d == 2 {
        '2'
    } else if d == 3 {
        '3'
    } else if d == 4 {
        '4'
    } else if d == 5 {
        '5'
    } else if d == 6 {
        '6'
    } else if d == 7 {
        '7'
    } else if d == 8 {
        '8'
    } else {
        '9'
    }
}

/// The views of a sequence of character vectors.
pub open spec fn views(v: Seq<Vec<char>>) -> Seq<Seq<char>> {
    v.map_values(|x: Vec<char>| x@)
}

/// The views of a sequence of strings.
pub open spec fn string_views(v: Seq<String>) -> Seq<Seq<char>> {
    v.map_values(|x: String| x@)
}

/// The decimal text of a number, as `Display` writes it.
pub open spec fn decimal(n: nat) -> Seq<char>
    decreases n,
{
    if n < 10 {
        seq![digit_char(n)]
    } else {
        decimal(n / 10).push(digit_char(n % 10))
    }
}

/// Joins paths the way `Path::join` does for a relative `rel`: no separator is
/// added after an empty base or a base that already ends in `/`.
pub open spec fn path_join(base: Seq<char>, rel: Seq<char>) -> Seq<char> {
    if rel.len() > 0 && rel[0] == '/' {
        rel
    } else if base.len() == 0 || base.last() == '/' {
        base + rel
    } else {
        base + seq!['/'] + rel
    }
}

// ── Trusted std character and string functions ────────────────────────

/// An ASCII character.
pub open spec fn is_ascii_char(c: char) -> bool {
    (c as u32) < 128
}

/// A text of ASCII characters only.
pub open spec fn is_ascii_text(s: Seq<char>) -> bool {
    forall|i: int| 0 <= i < s.len() ==> is_ascii_char(#[trigger] s[i])
}

/// `A` to `Z` lowered to `a` to `z`; every other character kept.
pub open spec fn ascii_to_lower(c: char) -> char {
    if 'A' <= c && c <= 'Z' {
        ((c as u32) + 32) as char
    } else {
        c
    }
}

/// `a` to `z` raised to `A` to `Z`; every other character kept.
pub open spec fn ascii_to_upper(c: char) -> char {
    if 'a' <= c && c <= 'z' {
        ((c as u32) - 32) as char
    } else {
        c
    }
}

/// Calls `char::is_whitespace`; the contract claims that the result is whether `c`
/// has the `White_Space` property, as std documents it.
#[verifier::external_body]
pub(crate) fn char_is_whitespace(c: char) -> (r: bool)
    ensures
        r == is_whitespace(c),
{
    c.is_whitespace()
}

/// Calls `char::is_uppercase`; the contract claims that the result is the named
/// classification of `c`, and that among ASCII characters exactly `A` to `Z` are upper
/// case, as std documents.
#[verifier::external_body]
pub(crate) fn char_is_uppercase(c: char) -> (r: bool)
    ensures
        r == is_uppercase(c),
        is_ascii_char(c) ==> r == ('A' <= c && c <= 'Z'),
{
    c.is_uppercase()
}

/// Calls `char::is_lowercase`; the contract claims that the result is the named
/// classification of `c`, and that among ASCII characters exactly `a` to `z` are lower
/// case, as std documents.
#[verifier::external_body]
pub(crate) fn char_is_lowercase(c: char) -> (r: bool)
    ensures
        r == is_lowercase(c),
        is_ascii_char(c) ==> r == ('a' <= c && c <= 'z'),
{
    c.is_lowercase()
}

/// Calls `char::is_alphabetic`; the contract claims that the result is the named
/// classification of `c`, and that among ASCII characters exactly the letters are
/// alphabetic, as std documents.
#[verifier::external_body]
pub(crate) fn char_is_alphabetic(c: char) -> (r: bool)
    ensures
        r == is_alphabetic(c),
        is_ascii_char(c) ==> r == (('A' <= c && c <= 'Z') || ('a' <= c && c <= 'z')),
{
    c.is_alphabetic()
}

/// Calls `str::to_lowercase`; the contract claims that the result is the named
/// lower-case form of `s`, and that an ASCII text has its letters `A` to `Z` lowered and
/// its other characters kept, as std documents.
#[verifier::external_body]
pub(crate) fn to_lowercase(s: &str) -> (r: String)
    ensures
        r@ == lowercase(s@),
        is_ascii_text(s@) ==> r@ == s@.map_values(|c: char| ascii_to_lower(c)),
{
    s.to_lowercase()
}

/// Calls `str::to_uppercase`; the contract claims that the result is the named
/// upper-case form of `s`, and that an ASCII text has its letters `a` to `z` raised and
/// its other characters kept, as std documents.
#[verifier::external_body]
pub(crate) fn to_uppercase(s: &str) -> (r: String)
    ensures
        r@ == uppercase(s@),
        is_ascii_text(s@) ==> r@ == s@.map_values(|c: char| ascii_to_upper(c)),
{
    s.to_uppercase()
}

/// Calls `String::push`; the contract claims that the string afterwards holds its
/// former characters followed by `c`.
#[verifier::external_body]
pub(crate) fn push_char(s: &mut String, c: char)
    ensures
        final(s)@ == old(s)@.push(c),
{
    s.push(c)
}

// ── Conversions ───────────────────────────────────────────────────────

/// The characters of a string slice, in order.
pub fn chars_of(s: &str) -> (r: Vec<char>)
    ensures
        r@ == s@,
{
    let mut out: Vec<char> = Vec::new();
    for c in it: s.chars()
        invariant
            out@ == it.seq().take(it.index() as int),
            it.seq() == s@,
    {
        out.push(c);
    }
    out
}

/// A string holding exactly the given characters.
pub fn string_of(cs: &[char]) -> (r: String)
    ensures
        r@ == cs@,
{
    let mut out = String::new();
    let n = cs.len();
    let mut i: usize = 0;
    while i < n
        invariant
            n == cs@.len(),
            i <= n,
            out@ == cs@.take(i as int),
        decreases n - i,
    {
        push_char(&mut out, cs[i]);
        assert(cs@.take(i as int + 1) == cs@.take(i as int).push(cs@[i as int]));
        i = i + 1;
    }
    assert(cs@.take(n as int) == cs@);
    out
}

/// The characters `s[from..to]`.
pub fn sub_chars(s: &[char], from: usize, to: usize) -> (r: Vec<char>)
    requires
        from <= to <= s@.len(),
    ensures
        r@ == s@.subrange(from as int, to as int),
{
    let mut out: Vec<char> = Vec::new();
    let mut i: usize = from;
    while i < to
        invariant
            from <= i <= to <= s@.len(),
            out@ == s@.subrange(from as int, i as int),
        decreases to - i,
    {
        out.push(s[i]);
        assert(s@.subrange(from as int, i as int + 1) == s@.subrange(from as int, i as int).push(
            s@[i as int],
        ));
        i = i + 1;
    }
    out
}

/// The string `s[from..to]` of a character slice.
pub fn sub_string(s: &[char], from: usize, to: usize) -> (r: String)
    requires
        from <= to <= s@.len(),
    ensures
        r@ == s@.subrange(from as int, to as int),
{
    let v = sub_chars(s, from, to);
    string_of(v.as_slice())
}

/// Appends the characters of `cs` to `out`.
pub fn append_chars(out: &mut String, cs: &[char])
    ensures
        final(out)@ == old(out)@ + cs@,
{
    let n = cs.len();
    let mut i: usize = 0;
    while i < n
        invariant
            n == cs@.len(),
            i <= n,
            out@ == old(out)@ + cs@.take(i as int),
        decreases n - i,
    {
        push_char(out, cs[i]);
        assert(cs@.take(i as int + 1) == cs@.take(i as int).push(cs@[i as int]));
        i = i + 1;
    }
    assert(cs@.take(n as int) == cs@);
}

/// Appends a string slice to `out`.
pub fn append_str(out: &mut String, s: &str)
    ensures
        final(out)@ == old(out)@ + s@,
{
    let cs = chars_of(s);
    append_chars(out, cs.as_slice());
}

/// A fresh copy of a string slice.
pub fn owned(s: &str) -> (r: String)
    ensures
        r@ == s@,
{
    let mut out = String::new();
    append_str(&mut out, s);
    out
}

// ── Tests on character slices ─────────────────────────────────────────

/// Whether `s` starts with `p`.
pub fn has_prefix(s: &[char], p: &[char]) -> (r: bool)
    ensures
        r == starts_with(s@, p@),
{
    if p.len() > s.len() {
        return false;
    }
    let n = p.len();
    let mut i: usize = 0;
    while i < n
        invariant
            n == p@.len(),
            n <= s@.len(),
            i <= n,
            forall|j: int| 0 <= j < i ==> s@[j] == p@[j],
        decreases n - i,
    {
        if s[i] != p[i] {
            assert(s@.subrange(0, n as int)[i as int] != p@[i as int]);
            return false;
        }
        i = i + 1;
    }
    assert(s@.subrange(0, n as int) =~= p@);
    true
}

/// Whether `s` ends with `p`.
pub fn has_suffix(s: &[char], p: &[char]) -> (r: bool)
    ensures
        r == ends_with(s@, p@),
{
    if p.len() > s.len() {
        return false;
    }
    let n = p.len();
    let off = s.len() - n;
    let mut i: usize = 0;
    while i < n
        invariant
            n == p@.len(),
            off + n == s.len(),
            i <= n,
            forall|j: int| 0 <= j < i ==> s@[off + j] == p@[j],
        decreases n - i,
    {
        if s[off + i] != p[i] {
            assert(s@.subrange(off as int, s@.len() as int)[i as int] != p@[i as int]);
            return false;
        }
        i = i + 1;
    }
    assert(s@.subrange(off as int, s@.len() as int) =~= p@);
    true
}

/// Whether `s` starts with the string `p`.
pub fn has_prefix_str(s: &[char], p: &str) -> (r: bool)
    ensures
        r == starts_with(s@, p@),
{
    let pc = chars_of(p);
    has_prefix(s, pc.as_slice())
}

/// Whether `s` ends with the string `p`.
pub fn has_suffix_str(s: &[char], p: &str) -> (r: bool)
    ensures
        r == ends_with(s@, p@),
{
    let pc = chars_of(p);
    has_suffix(s, pc.as_slice())
}

/// Whether two character slices are equal.
pub fn chars_eq(a: &[char], b: &[char]) -> (r: bool)
    ensures
        r == (a@ == b@),
{
    if a.len() != b.len() {
        return false;
    }
    let r = has_prefix(a, b);
    assert(a@ =~= a@.subrange(0, b@.len() as int));
    r
}

/// Whether a character slice equals a string.
pub fn chars_eq_str(a: &[char], b: &str) -> (r: bool)
    ensures
        r == (a@ == b@),
{
    let bc = chars_of(b);
    chars_eq(a, bc.as_slice())
}

/// Index of the first `c` in `s`.
pub fn find_char(s: &[char], c: char) -> (r: Option<usize>)
    ensures
        r matches Some(i) ==> first_index(s@, c) == Some(i as int) && i < s@.len() && s@[i as int]
            == c,
        r is None ==> first_index(s@, c) is None,
{
    proof {
        lemma_first_index(s@, c);
    }
    let n = s.len();
    let mut i: usize = 0;
    while i < n
        invariant
            n == s@.len(),
            i <= n,
            first_index(s@.take(i as int), c) is None,
        decreases n - i,
    {
        assert(s@.take(i as int + 1).drop_last() == s@.take(i as int));
        if s[i] == c {
            proof {
                lemma_first_index_prefix(s@, c, i as int + 1);
            }
            return Some(i);
        }
        i = i + 1;
    }
    assert(s@.take(n as int) == s@);
    None
}


/// Whether `c` is one of `set`.
pub fn contains_char(set: &[char], c: char) -> (r: bool)
    ensures
        r == set@.contains(c),
{
    let n = set.len();
    let mut i: usize = 0;
    while i < n
        invariant
            n == set@.len(),
            i <= n,
            forall|j: int| 0 <= j < i ==> set@[j] != c,
        decreases n - i,
    {
        if set[i] == c {
            assert(set@[i as int] == c);
            return true;
        }
        i = i + 1;
    }
    false
}

/// Splits `s` at every character of `seps` (`str::split` with a set of characters).
pub fn split_chars(s: &[char], seps: &[char]) -> (r: Vec<Vec<char>>)
    ensures
        views(r@) == split_any(s@, seps@),
{
    let mut done: Vec<Vec<char>> = Vec::new();
    let mut cur: Vec<char> = Vec::new();
    let n = s.len();
    let mut i: usize = 0;
    while i < n
        invariant
            n == s@.len(),
            i <= n,
            views(done@).push(cur@) == split_any(s@.take(i as int), seps@),
        decreases n - i,
    {
        let c = s[i];
        proof {
            assert(s@.take(i as int + 1).drop_last() == s@.take(i as int));
            assert(s@.take(i as int + 1).last() == c);
        }
        if contains_char(seps, c) {
            let ghost old_done = done@;
            done.push(cur);
            cur = Vec::new();
            assert(views(done@) == views(old_done).push(done@.last()@));
        } else {
            cur.push(c);
        }
        i = i + 1;
    }
    assert(s@.take(n as int) == s@);
    done.push(cur);
    done
}

/// Splits `s` at every `c` (`str::split` with one character).
pub fn split_on(s: &[char], c: char) -> (r: Vec<Vec<char>>)
    ensures
        views(r@) == split_char(s@, c),
{
    let seps = vec![c];
    assert(seps@ == seq![c]);
    split_chars(s, seps.as_slice())
}

/// Trimming leading white space can be done in one step over a white prefix.
proof fn lemma_trim_start_skip(s: Seq<char>, j: int)
    requires
        0 <= j <= s.len(),
        forall|k: int| 0 <= k < j ==> is_whitespace(#[trigger] s[k]),
    ensures
        trim_start(s) == trim_start(s.skip(j)),
    decreases j,
{
    if j > 0 {
        assert(s.drop_first().skip(j - 1) == s.skip(j));
        assert forall|k: int| 0 <= k < j - 1 implies is_whitespace(#[trigger] s.drop_first()[k]) by {
            assert(s.drop_first()[k] == s[k + 1]);
        }
        lemma_trim_start_skip(s.drop_first(), j - 1);
    } else {
        assert(s.skip(0) == s);
    }
}

/// Trimming trailing white space can be done in one step over a white suffix.
proof fn lemma_trim_end_take(s: Seq<char>, k: int)
    requires
        0 <= k <= s.len(),
        forall|m: int| k <= m < s.len() ==> is_whitespace(#[trigger] s[m]),
    ensures
        trim_end(s) == trim_end(s.take(k)),
    decreases s.len() - k,
{
    if k < s.len() {
        assert(s.drop_last().take(k) == s.take(k));
        lemma_trim_end_take(s.drop_last(), k);
    } else {
        assert(s.take(k) == s);
    }
}

/// `str::trim`: the index range of `s` that is left without surrounding white space.
pub fn trim_range(s: &[char]) -> (r: (usize, usize))
    ensures
        r.0 <= r.1 <= s@.len(),
        s@.subrange(r.0 as int, r.1 as int) == trim(s@),
{
    let n = s.len();
    let mut j: usize = 0;
    while j < n && char_is_whitespace(s[j])
        invariant
            n == s@.len(),
            j <= n,
            forall|k: int| 0 <= k < j ==> is_whitespace(#[trigger] s@[k]),
        decreases n - j,
    {
        j = j + 1;
    }
    proof {
        lemma_trim_start_skip(s@, j as int);
    }
    let ghost t = s@.skip(j as int);
    let mut k: usize = n;
    while k > j && char_is_whitespace(s[k - 1])
        invariant
            n == s@.len(),
            j <= k <= n,
            t == s@.skip(j as int),
            forall|m: int| k - j <= m < t.len() ==> is_whitespace(#[trigger] t[m]),
        decreases k,
    {
        k = k - 1;
    }
    proof {
        lemma_trim_end_take(t, k - j);
        assert(t.take(k - j) == s@.subrange(j as int, k as int));
    }
    (j, k)
}

/// `str::trim` on a character slice.
pub fn trim_chars(s: &[char]) -> (r: Vec<char>)
    ensures
        r@ == trim(s@),
{
    let (a, b) = trim_range(s);
    sub_chars(s, a, b)
}

/// Removes every trailing `c` (`str::trim_end_matches` with one character).
pub fn trim_end_matches(s: &[char], c: char) -> (r: Vec<char>)
    ensures
        r@ == trim_end_char(s@, c),
{
    let mut k: usize = s.len();
    assert(s@.take(s@.len() as int) == s@);
    while k > 0 && s[k - 1] == c
        invariant
            k <= s@.len(),
            trim_end_char(s@, c) == trim_end_char(s@.take(k as int), c),
        decreases k,
    {
        assert(s@.take(k as int).drop_last() == s@.take(k as int - 1));
        k = k - 1;
    }
    proof {
        assert(s@.take(s@.len() as int) == s@);
    }
    sub_chars(s, 0, k)
}

/// The value of a digit prefix never exceeds the value of the whole digit string.
proof fn lemma_digits_value_prefix(d: Seq<char>, k: int)
    requires
        0 <= k <= d.len(),
        forall|i: int| 0 <= i < d.len() ==> is_digit(#[trigger] d[i]),
    ensures
        digits_value(d.take(k)) <= digits_value(d),
    decreases d.len(),
{
    if k < d.len() {
        assert(d.drop_last().take(k) == d.take(k));
        assert forall|i: int| 0 <= i < d.drop_last().len() implies is_digit(
            #[trigger] d.drop_last()[i],
        ) by {
            assert(d.drop_last()[i] == d[i]);
        }
        lemma_digits_value_prefix(d.drop_last(), k);
    } else {
        assert(d.take(k) == d);
    }
}

/// `str::parse` for an unsigned integer type whose largest value is `max`.
pub fn parse_uint(s: &[char], max: u64) -> (r: Option<u64>)
    ensures
        r matches Some(v) ==> parse_unsigned(s@, max as nat) == Some(v as nat),
        r is None ==> parse_unsigned(s@, max as nat) is None,
{
    let n = s.len();
    let start: usize = if n > 0 && s[0] == '+' {
        1
    } else {
        0
    };
    let ghost d = unsigned_digits(s@);
    assert(d == s@.skip(start as int));
    if start >= n {
        return None;
    }
    let mut v: u64 = 0;
    let mut i: usize = start;
    while i < n
        invariant
            n == s@.len(),
            start <= i <= n,
            d == s@.skip(start as int),
            d == unsigned_digits(s@),
            v <= max,
            v as nat == digits_value(d.take(i - start)),
            forall|k: int| 0 <= k < i - start ==> is_digit(#[trigger] d[k]),
        decreases n - i,
    {
        let c = s[i];
        assert(d[i - start] == c);
        if !('0' <= c && c <= '9') {
            assert(!is_digit(d[i - start]));
            return None;
        }
        let digit: u64 = ((c as u32) - 48) as u64;
        assert(d.take(i - start + 1).drop_last() == d.take(i - start));
        assert(d.take(i - start + 1).last() == c);
        assert(digits_value(d.take(i - start + 1)) == v * 10 + digit);
        let big: u128 = (v as u128) * 10 + digit as u128;
        if big > max as u128 {
            proof {
                if forall|k: int| 0 <= k < d.len() ==> is_digit(#[trigger] d[k]) {
                    lemma_digits_value_prefix(d, i - start + 1);
                }
            }
            return None;
        }
        v = big as u64;
        i = i + 1;
    }
    assert(d.take(n - start) == d);
    Some(v)
}

/// Appends the decimal text of `n`.
pub fn push_decimal(out: &mut Vec<char>, n: u64)
    ensures
        final(out)@ == old(out)@ + decimal(n as nat),
    decreases n,
{
    if n >= 10 {
        push_decimal(out, n / 10);
    }
    let d = n % 10;
    let c = if d == 0 {
        '0'
    } else if d == 1 {
        '1'
    } else if d == 2 {
        '2'
    } else if d == 3 {
        '3'
    } else if d == 4 {
        '4'
    } else if d == 5 {
        '5'
    } else if d == 6 {
        '6'
    } else if d == 7 {
        '7'
    } else if d == 8 {
        '8'
    } else {
        '9'
    };
    assert(c == digit_char(d as nat));
    out.push(c);
}

/// The decimal text of a number (`u64::to_string`).
pub fn decimal_string(n: u64) -> (r: String)
    ensures
        r@ == decimal(n as nat),
{
    let mut v: Vec<char> = Vec::new();
    push_decimal(&mut v, n);
    assert(v@ == decimal(n as nat));
    string_of(v.as_slice())
}

/// `Path::join` of a relative path onto a base, as text.
pub fn join_path(base: &[char], rel: &[char]) -> (r: Vec<char>)
    ensures
        r@ == path_join(base@, rel@),
{
    let mut out: Vec<char> = Vec::new();
    if rel.len() > 0 && rel[0] == '/' {
        return sub_chars(rel, 0, rel.len());
    }
    let mut i: usize = 0;
    let n = base.len();
    while i < n
        invariant
            n == base@.len(),
            i <= n,
            out@ == base@.take(i as int),
        decreases n - i,
    {
        out.push(base[i]);
        assert(base@.take(i as int + 1) == base@.take(i as int).push(base@[i as int]));
        i = i + 1;
    }
    assert(base@.take(n as int) == base@);
    if n > 0 && base[n - 1] != '/' {
        out.push('/');
    }
    let ghost mid = out@;
    let m = rel.len();
    let mut j: usize = 0;
    while j < m
        invariant
            m == rel@.len(),
            j <= m,
            out@ == mid + rel@.take(j as int),
        decreases m - j,
    {
        out.push(rel[j]);
        assert(rel@.take(j as int + 1) == rel@.take(j as int).push(rel@[j as int]));
        j = j + 1;
    }
    assert(rel@.take(m as int) == rel@);
    out
}


/// The words joined with `sep` between them.
pub open spec fn join(words: Seq<Seq<char>>, sep: Seq<char>) -> Seq<char>
    decreases words.len(),
{
    if words.len() == 0 {
        Seq::empty()
    } else if words.len() == 1 {
        words[0]
    } else {
        join(words.drop_last(), sep) + sep + words.last()
    }
}

/// `s` without the suffix `p` if it has it (`strip_suffix(..).unwrap_or(s)`).
pub fn without_suffix_chars(s: &[char], p: &str) -> (r: Vec<char>)
    ensures
        r@ == without_suffix(s@, p@),
{
    let pc = chars_of(p);
    if has_suffix(s, pc.as_slice()) {
        sub_chars(s, 0, s.len() - pc.len())
    } else {
        sub_chars(s, 0, s.len())
    }
}

/// `s` without the prefix `p`, when it has it.
pub fn strip_prefix_chars(s: &[char], p: &str) -> (r: Option<Vec<char>>)
    ensures
        r matches Some(v) ==> strip_prefix(s@, p@) == Some(v@),
        r is None ==> strip_prefix(s@, p@) is None,
{
    let pc = chars_of(p);
    if has_prefix(s, pc.as_slice()) {
        Some(sub_chars(s, pc.len(), s.len()))
    } else {
        None
    }
}

/// `s` without the suffix `p`, when it has it.
pub fn strip_suffix_chars(s: &[char], p: &str) -> (r: Option<Vec<char>>)
    ensures
        r matches Some(v) ==> strip_suffix(s@, p@) == Some(v@),
        r is None ==> strip_suffix(s@, p@) is None,
{
    let pc = chars_of(p);
    if has_suffix(s, pc.as_slice()) {
        Some(sub_chars(s, 0, s.len() - pc.len()))
    } else {
        None
    }
}

/// Joins strings with `sep` between them (`[String]::join`).
pub fn join_strings(words: &Vec<String>, sep: &str) -> (r: String)
    ensures
        r@ == join(string_views(words@), sep@),
{
    let mut out = String::new();
    let n = words.len();
    let ghost ws = string_views(words@);
    let mut i: usize = 0;
    assert(ws.take(0) =~= Seq::<Seq<char>>::empty());
    while i < n
        invariant
            n == words@.len(),
            ws == string_views(words@),
            i <= n,
            out@ == join(ws.take(i as int), sep@),
        decreases n - i,
    {
        assert(ws.take(i as int + 1).drop_last() == ws.take(i as int));
        assert(ws.take(i as int + 1).last() == words@[i as int]@);
        if i > 0 {
            append_str(&mut out, sep);
        } else {
            assert(out@ =~= Seq::<char>::empty());
            assert(ws.take(1)[0] == words@[0]@);
        }
        append_str(&mut out, words[i].as_str());
        i = i + 1;
    }
    assert(ws.take(n as int) == ws);
    out
}

/// `s` with every `from` replaced by `to`.
pub open spec fn replace_char(s: Seq<char>, from: char, to: char) -> Seq<char> {
    s.map_values(|c: char| if c == from { to } else { c })
}

/// Replaces every `from` by `to` (`str::replace` with single characters).
pub fn replace_chars(s: &[char], from: char, to: char) -> (r: Vec<char>)
    ensures
        r@ == replace_char(s@, from, to),
{
    let mut out: Vec<char> = Vec::new();
    let n = s.len();
    let mut i: usize = 0;
    while i < n
        invariant
            n == s@.len(),
            i <= n,
            out@ == replace_char(s@.take(i as int), from, to),
        decreases n - i,
    {
        let c = s[i];
        out.push(if c == from { to } else { c });
        assert(replace_char(s@.take(i as int + 1), from, to) =~= replace_char(s@.take(i as int), from, to).push(
            if c == from { to } else { c },
        ));
        i = i + 1;
    }
    assert(s@.take(n as int) =~= s@);
    out
}

/// The text before the first `c` (`split(c).next()`).
pub fn before_char_chars(s: &[char], c: char) -> (r: Vec<char>)
    ensures
        r@ == before_char(s@, c),
{
    match find_char(s, c) {
        Some(i) => sub_chars(s, 0, i),
        None => sub_chars(s, 0, s.len()),
    }
}

/// A string made of three pieces.
pub fn concat3(a: &[char], b: &str, c: &[char]) -> (r: String)
    ensures
        r@ == a@ + b@ + c@,
{
    let mut out = string_of(a);
    append_str(&mut out, b);
    append_chars(&mut out, c);
    out
}

/// Whether `p` occurs inside `s` (`str::contains`).
pub fn contains_str(s: &[char], p: &str) -> (r: bool)
    ensures
        r == contains_seq(s@, p@),
{
    let pc = chars_of(p);
    let m = pc.len();
    let n = s.len();
    if m > n {
        assert forall|i: int| 0 <= i && i + p@.len() <= s@.len() implies #[trigger] s@.subrange(
            i,
            i + p@.len(),
        ) != p@ by {}
        return false;
    }
    if m == 0 {
        assert(s@.subrange(0, 0 + p@.len() as int) =~= p@);
        return true;
    }
    let mut i: usize = 0;
    while i <= n - m
        invariant
            m >= 1,
            m == pc@.len(),
            pc@ == p@,
            n == s@.len(),
            m <= n,
            i <= n - m + 1,
            forall|j: int| 0 <= j < i ==> #[trigger] s@.subrange(j, j + p@.len()) != p@,
        decreases n - m + 1 - i,
    {
        let tail = sub_chars(s, i, n);
        if has_prefix(tail.as_slice(), pc.as_slice()) {
            assert(tail@.subrange(0, m as int) =~= s@.subrange(i as int, i + m));
            return true;
        }
        assert(tail@.subrange(0, m as int) =~= s@.subrange(i as int, i + m));
        i = i + 1;
    }
    assert forall|j: int| 0 <= j && j + p@.len() <= s@.len() implies #[trigger] s@.subrange(
        j,
        j + p@.len(),
    ) != p@ by {
        assert(j < i);
    }
    false
}

/// Index of the first piece equal to `x`.
pub fn find_piece(pieces: &Vec<Vec<char>>, x: &str) -> (r: Option<usize>)
    ensures
        r matches Some(i) ==> first_index(views(pieces@), x@) == Some(i as int) && i
            < pieces@.len(),
        r is None ==> first_index(views(pieces@), x@) is None,
{
    let xc = chars_of(x);
    let ghost v = views(pieces@);
    let n = pieces.len();
    let mut i: usize = 0;
    while i < n
        invariant
            n == pieces@.len(),
            v == views(pieces@),
            xc@ == x@,
            i <= n,
            first_index(v.take(i as int), x@) is None,
        decreases n - i,
    {
        assert(v.take(i as int + 1).drop_last() == v.take(i as int));
        assert(v.take(i as int + 1).last() == pieces@[i as int]@);
        if chars_eq(pieces[i].as_slice(), xc.as_slice()) {
            proof {
                lemma_first_index_prefix(v, x@, i as int + 1);
            }
            return Some(i);
        }
        i = i + 1;
    }
    assert(v.take(n as int) == v);
    None
}

/// The view of an optional string.
pub open spec fn opt_view(o: Option<String>) -> Option<Seq<char>> {
    match o {
        Some(s) => Some(s@),
        None => None,
    }
}

/// The text of an optional string, or `default` when there is none.
pub open spec fn or_default(o: Option<String>, default: Seq<char>) -> Seq<char> {
    match o {
        Some(s) => s@,
        None => default,
    }
}

/// A copy of an optional string's text, or `default` (`unwrap_or_else`).
pub fn string_or(o: &Option<String>, default: &str) -> (r: String)
    ensures
        r@ == or_default(*o, default@),
{
    match o {
        Some(s) => owned(s.as_str()),
        None => owned(default),
    }
}

/// A copy of an optional string.
pub fn copy_opt(o: &Option<String>) -> (r: Option<String>)
    ensures
        opt_view(r) == opt_view(*o),
{
    match o {
        Some(s) => Some(owned(s.as_str())),
        None => None,
    }
}

/// Whether a text is one of the strings.
pub fn contains_string(set: &[String], x: &[char]) -> (r: bool)
    ensures
        r == string_views(set@).contains(x@),
{
    let n = set.len();
    let mut i: usize = 0;
    while i < n
        invariant
            n == set@.len(),
            i <= n,
            forall|j: int| 0 <= j < i ==> string_views(set@)[j] != x@,
        decreases n - i,
    {
        if crate::text::chars_eq(chars_of(set[i].as_str()).as_slice(), x) {
            assert(string_views(set@)[i as int] == x@);
            return true;
        }
        i = i + 1;
    }
    false
}

} // verus!
