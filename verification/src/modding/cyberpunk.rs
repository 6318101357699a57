use vstd::prelude::*;

use super::{mod_views, FsEntry, InstallTree, Mod, ModType, ModView};
use crate::sorting::{
    lemma_stably_sorted_map, sort_stable, sorted_distinct_strings, stably_sorted,
    strictly_ascending, text_le, text_lt, KeyView, SortKey,
};
use crate::text::{
    char_is_alphabetic, char_is_lowercase, char_is_uppercase, chars_of, ends_with, find_char,
    first_index, has_suffix_str, is_alphabetic, is_digit, is_lowercase, is_uppercase, join,
    join_strings, split_any, split_chars, string_of, string_views, sub_chars, sub_string,
    without_suffix, without_suffix_chars, replace_char, replace_chars, before_char,
    before_char_chars, starts_with, has_prefix_str, concat3, owned, append_str, path_join,
    join_path, chars_eq, chars_eq_str, lowercase, to_lowercase,
};

verus! {

// ── Name cleaning ─────────────────────────────────────────────────────
//
// Converts raw file and directory names into readable display names:
//   "###-LUTSwitcher-Addon-Preem.archive" → "LUT Switcher Addon Preem"
//   "EquipmentEx.archive.xl"              → "Equipment Ex"
//   "PhotoModeScope.xl"                   → "Photo Mode Scope"
//   "ArchiveXL"                           → "Archive XL"

/// Whether a new word starts at position `i` (1 ≤ i < len) of a token:
/// lower/digit → upper, the end of an upper-case run before a lower-case letter,
/// letter → digit, or digit → letter.
pub open spec fn camel_boundary(c: Seq<char>, i: int) -> bool {
    let prev = c[i - 1];
    let curr = c[i];
    let lower_to_upper = !is_uppercase(prev) && is_uppercase(curr);
    let upper_run_end = is_uppercase(prev) && is_uppercase(curr) && i + 1 < c.len()
        && is_lowercase(c[i + 1]);
    let letter_to_digit = is_alphabetic(prev) && is_digit(curr);
    let digit_to_letter = is_digit(prev) && is_alphabetic(curr);
    lower_to_upper || upper_run_end || letter_to_digit || digit_to_letter
}

/// The words of the first `k` characters of the token `c`, the last one still open.
pub open spec fn camel_pieces(c: Seq<char>, k: nat) -> Seq<Seq<char>>
    decreases k,
{
    if k == 0 {
        seq![Seq::<char>::empty()]
    } else {
        let r = camel_pieces(c, (k - 1) as nat);
        let i = k - 1;
        if i >= 1 && camel_boundary(c, i) {
            r.push(seq![c[i]])
        } else {
            r.update(r.len() - 1, r.last().push(c[i]))
        }
    }
}

/// There is always an open word.
proof fn lemma_camel_pieces_nonempty(c: Seq<char>, k: nat)
    ensures
        camel_pieces(c, k).len() >= 1,
    decreases k,
{
    if k > 0 {
        lemma_camel_pieces_nonempty(c, (k - 1) as nat);
    }
}

/// The words of a CamelCase / digit-mixed token:
///   "LUTSwitcher" → ["LUT", "Switcher"], "Nova4" → ["Nova", "4"],
///   "RED4ext" → ["RED", "4", "ext"], "Addon" → ["Addon"].
pub open spec fn camel_words(c: Seq<char>) -> Seq<Seq<char>> {
    if c.len() == 0 {
        Seq::empty()
    } else {
        camel_pieces(c, c.len())
    }
}

/// The words of a list of tokens, token after token.
pub open spec fn words_of_tokens(tokens: Seq<Seq<char>>) -> Seq<Seq<char>>
    decreases tokens.len(),
{
    if tokens.len() == 0 {
        Seq::empty()
    } else {
        words_of_tokens(tokens.drop_last()) + camel_words(tokens.last())
    }
}

/// A character of a Nexus sort prefix.
pub open spec fn is_sort_prefix_char(c: char) -> bool {
    is_digit(c) || c == '#' || c == '@' || c == '!'
}

/// The name without a known mod file extension (the longest that matches).
pub open spec fn strip_mod_extension(s: Seq<char>) -> Seq<char> {
    if ends_with(s, ".archive.xl"@) {
        without_suffix(s, ".archive.xl"@)
    } else if ends_with(s, ".archive"@) {
        without_suffix(s, ".archive"@)
    } else if ends_with(s, ".xl"@) {
        without_suffix(s, ".xl"@)
    } else if ends_with(s, ".yaml"@) {
        without_suffix(s, ".yaml"@)
    } else if ends_with(s, ".yml"@) {
        without_suffix(s, ".yml"@)
    } else if ends_with(s, ".tweak"@) {
        without_suffix(s, ".tweak"@)
    } else {
        s
    }
}

/// The name without a leading Nexus sort prefix: a non-empty run of digits or
/// `#`, `@`, `!` ending at the first `-`.
pub open spec fn strip_sort_prefix(s: Seq<char>) -> Seq<char> {
    match first_index(s, '-') {
        Some(dash) => if dash > 0 && (forall|k: int|
            0 <= k < dash ==> is_sort_prefix_char(#[trigger] s[k])) {
            s.skip(dash + 1)
        } else {
            s
        },
        None => s,
    }
}

/// The display name of a raw file or directory name.
pub open spec fn clean_name(raw: Seq<char>) -> Seq<char> {
    let s = strip_sort_prefix(strip_mod_extension(without_suffix(raw, ".disabled"@)));
    join(words_of_tokens(split_any(s, seq!['-', '_'])), seq![' '])
}

/// Disabling a mod keeps its display name: a name with `.disabled` appended cleans to
/// what the name itself cleans to (for a name not already ending in `.disabled`).
pub proof fn law_disabled_keeps_name(raw: Seq<char>)
    requires
        !ends_with(raw, ".disabled"@),
    ensures
        clean_name(raw + ".disabled"@) == clean_name(raw),
{
    let d = raw + ".disabled"@;
    assert(d.subrange(d.len() - ".disabled"@.len(), d.len() as int) =~= ".disabled"@);
    assert(d.subrange(0, d.len() - ".disabled"@.len()) =~= raw);
}

/// Where the first `-` of `s` stands, given that `s[d]` is a `-` and none comes before.
proof fn lemma_first_dash(s: Seq<char>, d: int)
    requires
        0 <= d < s.len(),
        s[d] == '-',
        forall|j: int| 0 <= j < d ==> s[j] != '-',
    ensures
        first_index(s, '-') == Some(d),
{
    crate::text::lemma_first_index(s, '-');
    if first_index(s, '-') is Some {
        let i = first_index(s, '-')->0;
        if i > d {
            assert(s[d] != '-');
        }
    }
}

/// A leading part that holds anything but ASCII digits and `#`, `@`, `!` before the
/// first `-` is no sort prefix: it is kept.
pub proof fn law_word_prefix_is_kept(s: Seq<char>, d: int, k: int)
    requires
        0 <= k < d < s.len(),
        s[d] == '-',
        forall|j: int| 0 <= j < d ==> s[j] != '-',
        !(('0' <= s[k] && s[k] <= '9') || s[k] == '#' || s[k] == '@' || s[k] == '!'),
    ensures
        strip_sort_prefix(s) == s,
{
    lemma_first_dash(s, d);
    assert(!is_sort_prefix_char(s[k]));
}

/// A non-empty run of ASCII digits and `#`, `@`, `!` before the first `-` is a sort
/// prefix: it is dropped together with the `-`.
pub proof fn law_sort_prefix_is_dropped(s: Seq<char>, d: int)
    requires
        0 < d < s.len(),
        s[d] == '-',
        forall|j: int|
            0 <= j < d ==> s[j] != '-' && (('0' <= s[j] && s[j] <= '9') || s[j] == '#' || s[j] == '@'
                || s[j] == '!'),
    ensures
        strip_sort_prefix(s) == s.skip(d + 1),
{
    lemma_first_dash(s, d);
    assert forall|j: int| 0 <= j < d implies is_sort_prefix_char(#[trigger] s[j]) by {}
}

/// A name whose part before the first `-` is no sort prefix loses nothing but its
/// `.disabled` suffix and extension: its display name is the words of all of it.
pub proof fn law_clean_name_keeps_word_prefix(raw: Seq<char>, d: int, k: int)
    requires
        ({
            let s = strip_mod_extension(without_suffix(raw, ".disabled"@));
            &&& 0 <= k < d < s.len()
            &&& s[d] == '-'
            &&& forall|j: int| 0 <= j < d ==> s[j] != '-'
            &&& !(('0' <= s[k] && s[k] <= '9') || s[k] == '#' || s[k] == '@' || s[k] == '!')
        }),
    ensures
        clean_name(raw) == join(
            words_of_tokens(
                split_any(strip_mod_extension(without_suffix(raw, ".disabled"@)), seq!['-', '_']),
            ),
            seq![' '],
        ),
{
    law_word_prefix_is_kept(strip_mod_extension(without_suffix(raw, ".disabled"@)), d, k);
}

/// Splits a CamelCase/digit-mixed token into words and appends them to `out`.
pub fn expand_camel(s: &str, out: &mut Vec<String>)
    ensures
        string_views(final(out)@) == string_views(old(out)@) + camel_words(s@),
{
    let chars = chars_of(s);
    let n = chars.len();
    if n == 0 {
        assert(string_views(out@) == string_views(out@) + camel_words(s@));
        return ;
    }
    let ghost c = chars@;
    let ghost base = string_views(out@);
    let mut start: usize = 0;
    let mut i: usize = 1;
    assert(camel_pieces(c, 0) == seq![Seq::<char>::empty()]);
    assert(camel_pieces(c, 1) =~= seq![seq![c[0]]]);
    assert(c.subrange(0, 1) == seq![c[0]]);
    while i < n
        invariant
            n == chars@.len(),
            c == chars@,
            c == s@,
            1 <= i <= n,
            start < i,
            string_views(out@) + seq![c.subrange(start as int, i as int)] == base + camel_pieces(
                c,
                i as nat,
            ),
        decreases n - i,
    {
        let prev = chars[i - 1];
        let curr = chars[i];
        let next_lower = if i + 1 < n {
            char_is_lowercase(chars[i + 1])
        } else {
            false
        };
        let prev_upper = char_is_uppercase(prev);
        let curr_upper = char_is_uppercase(curr);
        let lower_to_upper = !prev_upper && curr_upper;
        let upper_run_end = prev_upper && curr_upper && next_lower;
        let letter_to_digit = char_is_alphabetic(prev) && ('0' <= curr && curr <= '9');
        let digit_to_letter = ('0' <= prev && prev <= '9') && char_is_alphabetic(curr);
        let split = lower_to_upper || upper_run_end || letter_to_digit || digit_to_letter;
        assert(split == camel_boundary(c, i as int));
        let ghost before = string_views(out@);
        let ghost r = camel_pieces(c, i as nat);
        proof {
            lemma_camel_pieces_nonempty(c, i as nat);
        }
        if split {
            let ghost w0 = c.subrange(start as int, i as int);
            let word = sub_string(chars.as_slice(), start, i);
            out.push(word);
            assert(string_views(out@) == before.push(c.subrange(start as int, i as int)));
            start = i;
            assert(c.subrange(start as int, i as int + 1) =~= seq![c[i as int]]);
            assert(camel_pieces(c, i as nat + 1) == r.push(seq![c[i as int]]));
            let ghost x = seq![c[i as int]];
            assert(base + r.push(x) =~= (base + r).push(x));
            assert(before.push(w0) + seq![x] =~= (before + seq![w0]).push(x));
        } else {
            let ghost w = c.subrange(start as int, i as int);
            assert(c.subrange(start as int, i as int + 1) =~= w.push(c[i as int]));
            assert(before + seq![w] == base + r);
            assert((base + r).last() == w);
            assert(r.last() == w);
            assert(camel_pieces(c, i as nat + 1) == r.update(r.len() - 1, w.push(c[i as int])));
            let ghost v = w.push(c[i as int]);
            assert(before + seq![v] =~= (before + seq![w]).update(before.len() as int, v));
            assert(base + r.update(r.len() - 1, v) =~= (base + r).update(
                base.len() + r.len() - 1,
                v,
            ));
        }
        i = i + 1;
    }
    let tail = sub_string(chars.as_slice(), start, n);
    let ghost before = string_views(out@);
    out.push(tail);
    assert(string_views(out@) == before.push(c.subrange(start as int, n as int)));
}

/// Strips the first known mod file extension (longest first).
fn strip_mod_extension_chars(s: &[char]) -> (r: Vec<char>)
    ensures
        r@ == strip_mod_extension(s@),
{
    if has_suffix_str(s, ".archive.xl") {
        without_suffix_chars(s, ".archive.xl")
    } else if has_suffix_str(s, ".archive") {
        without_suffix_chars(s, ".archive")
    } else if has_suffix_str(s, ".xl") {
        without_suffix_chars(s, ".xl")
    } else if has_suffix_str(s, ".yaml") {
        without_suffix_chars(s, ".yaml")
    } else if has_suffix_str(s, ".yml") {
        without_suffix_chars(s, ".yml")
    } else if has_suffix_str(s, ".tweak") {
        without_suffix_chars(s, ".tweak")
    } else {
        sub_chars(s, 0, s.len())
    }
}

/// Strips a leading Nexus sort prefix such as `###-` or `123-`.
fn strip_sort_prefix_chars(s: &[char]) -> (r: Vec<char>)
    ensures
        r@ == strip_sort_prefix(s@),
{
    match find_char(s, '-') {
        Some(dash) => {
            if dash == 0 {
                return sub_chars(s, 0, s.len());
            }
            let mut k: usize = 0;
            while k < dash
                invariant
                    dash < s.len(),
                    first_index(s@, '-') == Some(dash as int),
                    k <= dash,
                    forall|j: int| 0 <= j < k ==> is_sort_prefix_char(#[trigger] s@[j]),
                decreases dash - k,
            {
                let ch = s[k];
                if !(('0' <= ch && ch <= '9') || ch == '#' || ch == '@' || ch == '!') {
                    assert(!is_sort_prefix_char(s@[k as int]));
                    assert(s@.subrange(0, s@.len() as int) == s@);
                    assert(!(forall|j: int|
                        0 <= j < dash ==> is_sort_prefix_char(#[trigger] s@[j])));
                    assert(strip_sort_prefix(s@) == s@);
                    return sub_chars(s, 0, s.len());
                }
                k = k + 1;
            }
            sub_chars(s, dash + 1, s.len())
        },
        None => sub_chars(s, 0, s.len()),
    }
}

/// Converts a raw file or directory name into a readable display name.
pub fn clean_mod_name(raw: &str) -> (r: String)
    ensures
        r@ == clean_name(raw@),
{
    let rc = chars_of(raw);
    let s1 = without_suffix_chars(rc.as_slice(), ".disabled");
    let s2 = strip_mod_extension_chars(s1.as_slice());
    let s3 = strip_sort_prefix_chars(s2.as_slice());
    let seps = vec!['-', '_'];
    assert(seps@ == seq!['-', '_']);
    let tokens = split_chars(s3.as_slice(), seps.as_slice());
    let ghost tv = split_any(s3@, seq!['-', '_']);
    let mut words: Vec<String> = Vec::new();
    let nt = tokens.len();
    let mut k: usize = 0;
    assert(tv.take(0) =~= Seq::<Seq<char>>::empty());
    while k < nt
        invariant
            nt == tokens@.len(),
            tv.len() == nt,
            forall|j: int| 0 <= j < nt ==> #[trigger] tokens@[j]@ == tv[j],
            k <= nt,
            string_views(words@) == words_of_tokens(tv.take(k as int)),
        decreases nt - k,
    {
        assert(tv.take(k as int + 1).drop_last() == tv.take(k as int));
        assert(tv.take(k as int + 1).last() == tokens@[k as int]@);
        if tokens[k].len() > 0 {
            let t = string_of(tokens[k].as_slice());
            expand_camel(t.as_str(), &mut words);
        } else {
            assert(camel_words(tokens@[k as int]@) =~= Seq::<Seq<char>>::empty());
            assert(string_views(words@) =~= string_views(words@) + Seq::<Seq<char>>::empty());
        }
        k = k + 1;
    }
    assert(tv.take(nt as int) == tv);
    proof {
        reveal_strlit(" ");
    }
    assert(" "@ == seq![' ']);
    assert(s3@ == strip_sort_prefix(strip_mod_extension(without_suffix(raw@, ".disabled"@))));
    assert(string_views(words@) == words_of_tokens(split_any(s3@, seq!['-', '_'])));
    join_strings(&words, " ")
}

// ── Component derivation ─────────────────────────────────────────────
//
// Given the flat list of relative file paths that an install extracted,
// the deduplicated, sorted set of scanner-visible top-level paths. These are
// the same paths the mod scanner detects, so they work with toggling and
// uninstalling.

/// The component under `dir` named by the first path segment after `prefix`.
pub open spec fn named_component(dir: Seq<char>, prefix: Seq<char>, path: Seq<char>) -> Option<
    Seq<char>,
> {
    let name = before_char(path.skip(prefix.len() as int), '/');
    if name.len() > 0 {
        Some(dir + "/"@ + prefix + name)
    } else {
        None
    }
}

/// The scanner-visible component that an extracted file belongs to, if any.
pub open spec fn component_of(dir: Seq<char>, raw: Seq<char>) -> Option<Seq<char>> {
    let path = replace_char(raw, '\\', '/');
    if starts_with(path, "archive/pc/mod/"@) {
        Some(dir + "/"@ + path)
    } else if starts_with(path, "bin/x64/plugins/cyber_engine_tweaks/mods/"@) {
        named_component(dir, "bin/x64/plugins/cyber_engine_tweaks/mods/"@, path)
    } else if starts_with(path, "red4ext/plugins/"@) {
        named_component(dir, "red4ext/plugins/"@, path)
    } else if starts_with(path, "r6/scripts/"@) {
        named_component(dir, "r6/scripts/"@, path)
    } else if starts_with(path, "r6/tweaks/"@) {
        named_component(dir, "r6/tweaks/"@, path)
    } else if starts_with(path, "mods/"@) {
        named_component(dir, "mods/"@, path)
    } else {
        None
    }
}

/// `v` is the component of one of the extracted files.
pub open spec fn is_component(dir: Seq<char>, extracted: Seq<Seq<char>>, v: Seq<char>) -> bool {
    exists|i: int| 0 <= i < extracted.len() && component_of(dir, #[trigger] extracted[i]) == Some(v)
}

fn named_component_exec(dir: &[char], prefix: &str, path: &[char]) -> (r: Option<String>)
    requires
        starts_with(path@, prefix@),
    ensures
        r matches Some(v) ==> named_component(dir@, prefix@, path@) == Some(v@),
        r is None ==> named_component(dir@, prefix@, path@) is None,
{
    let pc = chars_of(prefix);
    let rest = sub_chars(path, pc.len(), path.len());
    assert(rest@ == path@.skip(prefix@.len() as int));
    let name = before_char_chars(rest.as_slice(), '/');
    if name.len() > 0 {
        let mut mid = owned("/");
        append_str(&mut mid, prefix);
        let r = concat3(dir, mid.as_str(), name.as_slice());
        assert(r@ =~= dir@ + "/"@ + prefix@ + name@);
        Some(r)
    } else {
        None
    }
}

/// The component of one extracted file.
fn component_for(dir: &[char], raw: &str) -> (r: Option<String>)
    ensures
        r matches Some(v) ==> component_of(dir@, raw@) == Some(v@),
        r is None ==> component_of(dir@, raw@) is None,
{
    let rc = chars_of(raw);
    let path = replace_chars(rc.as_slice(), '\\', '/');
    let p = path.as_slice();
    if has_prefix_str(p, "archive/pc/mod/") {
        Some(concat3(dir, "/", p))
    } else if has_prefix_str(p, "bin/x64/plugins/cyber_engine_tweaks/mods/") {
        named_component_exec(dir, "bin/x64/plugins/cyber_engine_tweaks/mods/", p)
    } else if has_prefix_str(p, "red4ext/plugins/") {
        named_component_exec(dir, "red4ext/plugins/", p)
    } else if has_prefix_str(p, "r6/scripts/") {
        named_component_exec(dir, "r6/scripts/", p)
    } else if has_prefix_str(p, "r6/tweaks/") {
        named_component_exec(dir, "r6/tweaks/", p)
    } else if has_prefix_str(p, "mods/") {
        named_component_exec(dir, "mods/", p)
    } else {
        None
    }
}

/// A text does not start with `p` when the two differ at a position within both.
proof fn lemma_not_prefix(s: Seq<char>, p: Seq<char>, i: int)
    requires
        0 <= i < p.len(),
        i < s.len(),
        s[i] != p[i],
    ensures
        !starts_with(s, p),
{
    if starts_with(s, p) {
        assert(s.subrange(0, p.len() as int)[i] == s[i]);
    }
}

/// The name before the first `/` of `name + rest`, where `rest` is empty or starts a
/// new segment, is `name`.
proof fn lemma_first_segment_is_name(name: Seq<char>, rest: Seq<char>)
    requires
        !name.contains('/'),
        rest.len() == 0 || rest[0] == '/',
    ensures
        before_char(name + rest, '/') == name,
{
    let t = name + rest;
    crate::text::lemma_first_index(t, '/');
    assert forall|j: int| 0 <= j < name.len() implies t[j] != '/' by {
        assert(t[j] == name[j]);
        if name[j] == '/' {
            assert(name.contains('/'));
        }
    }
    if rest.len() > 0 {
        assert(t[name.len() as int] == '/');
        assert(t.take(name.len() as int) =~= name);
    } else {
        assert(t =~= name);
    }
}

/// Replacing a character that does not occur changes nothing.
proof fn lemma_replace_absent(s: Seq<char>, from: char, to: char)
    requires
        !s.contains(from),
    ensures
        replace_char(s, from, to) == s,
{
    assert forall|i: int| 0 <= i < s.len() implies s[i] != from by {
        if s[i] == from {
            assert(s.contains(from));
        }
    }
    assert(replace_char(s, from, to) =~= s);
}

/// A character absent from three texts is absent from their concatenation.
proof fn lemma_absent_in_concat(a: Seq<char>, b: Seq<char>, c: Seq<char>, x: char)
    requires
        !a.contains(x),
        !b.contains(x),
        !c.contains(x),
    ensures
        !(a + b + c).contains(x),
{
    let t = a + b + c;
    if t.contains(x) {
        let i = choose|i: int| 0 <= i < t.len() && t[i] == x;
        if i < a.len() {
            assert(a[i] == x);
        } else if i < a.len() + b.len() {
            assert(b[i - a.len()] == x);
        } else {
            assert(c[i - a.len() - b.len()] == x);
        }
    }
}

/// The component named by the first segment after `prefix`.
proof fn lemma_named_component(dir: Seq<char>, prefix: Seq<char>, name: Seq<char>, rest: Seq<char>)
    requires
        name.len() > 0,
        !name.contains('/'),
        rest.len() == 0 || rest[0] == '/',
    ensures
        named_component(dir, prefix, prefix + name + rest) == Some(dir + "/"@ + prefix + name),
{
    assert((prefix + name + rest).skip(prefix.len() as int) =~= name + rest);
    lemma_first_segment_is_name(name, rest);
}

proof fn lemma_cet_component(dir: Seq<char>, name: Seq<char>, rest: Seq<char>)
    requires
        name.len() > 0,
        !name.contains('/'),
        !name.contains('\\'),
        !rest.contains('\\'),
        rest.len() == 0 || rest[0] == '/',
    ensures
        component_of(dir, "bin/x64/plugins/cyber_engine_tweaks/mods"@ + "/"@ + name + rest) == Some(dir + "/"@ + ("bin/x64/plugins/cyber_engine_tweaks/mods"@ + "/"@) + name),
{
    reveal_strlit("/");
    reveal_strlit("bin/x64/plugins/cyber_engine_tweaks/mods");
    reveal_strlit("bin/x64/plugins/cyber_engine_tweaks/mods/");
    reveal_strlit("archive/pc/mod/");
    let prefix = "bin/x64/plugins/cyber_engine_tweaks/mods/"@;
    assert("bin/x64/plugins/cyber_engine_tweaks/mods"@ + "/"@ =~= prefix);
    let raw = prefix + name + rest;
    assert("bin/x64/plugins/cyber_engine_tweaks/mods"@ + "/"@ + name + rest =~= raw);
    assert(!prefix.contains('\\'));
    lemma_absent_in_concat(prefix, name, rest, '\\');
    lemma_replace_absent(raw, '\\', '/');
    assert(raw.subrange(0, prefix.len() as int) =~= prefix);
    lemma_not_prefix(raw, "archive/pc/mod/"@, 0);
    lemma_named_component(dir, prefix, name, rest);
}

proof fn lemma_red4ext_component(dir: Seq<char>, name: Seq<char>, rest: Seq<char>)
    requires
        name.len() > 0,
        !name.contains('/'),
        !name.contains('\\'),
        !rest.contains('\\'),
        rest.len() == 0 || rest[0] == '/',
    ensures
        component_of(dir, "red4ext/plugins"@ + "/"@ + name + rest) == Some(dir + "/"@ + ("red4ext/plugins"@ + "/"@) + name),
{
    reveal_strlit("/");
    reveal_strlit("red4ext/plugins");
    reveal_strlit("red4ext/plugins/");
    reveal_strlit("archive/pc/mod/");
    reveal_strlit("bin/x64/plugins/cyber_engine_tweaks/mods/");
    let prefix = "red4ext/plugins/"@;
    assert("red4ext/plugins"@ + "/"@ =~= prefix);
    let raw = prefix + name + rest;
    assert("red4ext/plugins"@ + "/"@ + name + rest =~= raw);
    assert(!prefix.contains('\\'));
    lemma_absent_in_concat(prefix, name, rest, '\\');
    lemma_replace_absent(raw, '\\', '/');
    assert(raw.subrange(0, prefix.len() as int) =~= prefix);
    lemma_not_prefix(raw, "archive/pc/mod/"@, 0);
    lemma_not_prefix(raw, "bin/x64/plugins/cyber_engine_tweaks/mods/"@, 0);
    lemma_named_component(dir, prefix, name, rest);
}

proof fn lemma_redscript_component(dir: Seq<char>, name: Seq<char>, rest: Seq<char>)
    requires
        name.len() > 0,
        !name.contains('/'),
        !name.contains('\\'),
        !rest.contains('\\'),
        rest.len() == 0 || rest[0] == '/',
    ensures
        component_of(dir, "r6/scripts"@ + "/"@ + name + rest) == Some(dir + "/"@ + ("r6/scripts"@ + "/"@) + name),
{
    reveal_strlit("/");
    reveal_strlit("r6/scripts");
    reveal_strlit("r6/scripts/");
    reveal_strlit("archive/pc/mod/");
    reveal_strlit("bin/x64/plugins/cyber_engine_tweaks/mods/");
    reveal_strlit("red4ext/plugins/");
    let prefix = "r6/scripts/"@;
    assert("r6/scripts"@ + "/"@ =~= prefix);
    let raw = prefix + name + rest;
    assert("r6/scripts"@ + "/"@ + name + rest =~= raw);
    assert(!prefix.contains('\\'));
    lemma_absent_in_concat(prefix, name, rest, '\\');
    lemma_replace_absent(raw, '\\', '/');
    assert(raw.subrange(0, prefix.len() as int) =~= prefix);
    lemma_not_prefix(raw, "archive/pc/mod/"@, 0);
    lemma_not_prefix(raw, "bin/x64/plugins/cyber_engine_tweaks/mods/"@, 0);
    lemma_not_prefix(raw, "red4ext/plugins/"@, 1);
    lemma_named_component(dir, prefix, name, rest);
}

proof fn lemma_tweak_component(dir: Seq<char>, name: Seq<char>, rest: Seq<char>)
    requires
        name.len() > 0,
        !name.contains('/'),
        !name.contains('\\'),
        !rest.contains('\\'),
        rest.len() == 0 || rest[0] == '/',
    ensures
        component_of(dir, "r6/tweaks"@ + "/"@ + name + rest) == Some(dir + "/"@ + ("r6/tweaks"@ + "/"@) + name),
{
    reveal_strlit("/");
    reveal_strlit("r6/tweaks");
    reveal_strlit("r6/tweaks/");
    reveal_strlit("archive/pc/mod/");
    reveal_strlit("bin/x64/plugins/cyber_engine_tweaks/mods/");
    reveal_strlit("red4ext/plugins/");
    reveal_strlit("r6/scripts/");
    let prefix = "r6/tweaks/"@;
    assert("r6/tweaks"@ + "/"@ =~= prefix);
    let raw = prefix + name + rest;
    assert("r6/tweaks"@ + "/"@ + name + rest =~= raw);
    assert(!prefix.contains('\\'));
    lemma_absent_in_concat(prefix, name, rest, '\\');
    lemma_replace_absent(raw, '\\', '/');
    assert(raw.subrange(0, prefix.len() as int) =~= prefix);
    lemma_not_prefix(raw, "archive/pc/mod/"@, 0);
    lemma_not_prefix(raw, "bin/x64/plugins/cyber_engine_tweaks/mods/"@, 0);
    lemma_not_prefix(raw, "red4ext/plugins/"@, 1);
    lemma_not_prefix(raw, "r6/scripts/"@, 3);
    lemma_named_component(dir, prefix, name, rest);
}

proof fn lemma_redmod_component(dir: Seq<char>, name: Seq<char>, rest: Seq<char>)
    requires
        name.len() > 0,
        !name.contains('/'),
        !name.contains('\\'),
        !rest.contains('\\'),
        rest.len() == 0 || rest[0] == '/',
    ensures
        component_of(dir, "mods"@ + "/"@ + name + rest) == Some(dir + "/"@ + ("mods"@ + "/"@) + name),
{
    reveal_strlit("/");
    reveal_strlit("mods");
    reveal_strlit("mods/");
    reveal_strlit("archive/pc/mod/");
    reveal_strlit("bin/x64/plugins/cyber_engine_tweaks/mods/");
    reveal_strlit("red4ext/plugins/");
    reveal_strlit("r6/scripts/");
    reveal_strlit("r6/tweaks/");
    let prefix = "mods/"@;
    assert("mods"@ + "/"@ =~= prefix);
    let raw = prefix + name + rest;
    assert("mods"@ + "/"@ + name + rest =~= raw);
    assert(!prefix.contains('\\'));
    lemma_absent_in_concat(prefix, name, rest, '\\');
    lemma_replace_absent(raw, '\\', '/');
    assert(raw.subrange(0, prefix.len() as int) =~= prefix);
    lemma_not_prefix(raw, "archive/pc/mod/"@, 0);
    lemma_not_prefix(raw, "bin/x64/plugins/cyber_engine_tweaks/mods/"@, 0);
    lemma_not_prefix(raw, "red4ext/plugins/"@, 0);
    lemma_not_prefix(raw, "r6/scripts/"@, 0);
    lemma_not_prefix(raw, "r6/tweaks/"@, 0);
    lemma_named_component(dir, prefix, name, rest);
}

proof fn lemma_archive_component(dir: Seq<char>, name: Seq<char>)
    requires
        !name.contains('\\'),
    ensures
        component_of(dir, "archive/pc/mod"@ + "/"@ + name + Seq::<char>::empty()) == Some(
            dir + "/"@ + ("archive/pc/mod"@ + "/"@) + name,
        ),
{
    reveal_strlit("/");
    reveal_strlit("archive/pc/mod");
    reveal_strlit("archive/pc/mod/");
    let prefix = "archive/pc/mod/"@;
    assert("archive/pc/mod"@ + "/"@ =~= prefix);
    let raw = prefix + name + Seq::<char>::empty();
    assert("archive/pc/mod"@ + "/"@ + name + Seq::<char>::empty() =~= raw);
    assert(!prefix.contains('\\'));
    assert(!Seq::<char>::empty().contains('\\'));
    lemma_absent_in_concat(prefix, name, Seq::<char>::empty(), '\\');
    lemma_replace_absent(raw, '\\', '/');
    assert(raw.subrange(0, prefix.len() as int) =~= prefix);
    assert(dir + "/"@ + raw =~= dir + "/"@ + prefix + name);
}

/// An element that the map keeps is in the result of `filter_map`.
proof fn lemma_filter_map_keeps<A, B>(s: Seq<A>, f: spec_fn(A) -> Option<B>, k: int)
    requires
        0 <= k < s.len(),
        f(s[k]) is Some,
    ensures
        s.filter_map(f).contains(f(s[k])->0),
    decreases s.len(),
{
    let d = s.drop_last();
    let r = d.filter_map(f);
    if k == s.len() - 1 {
        assert((r + seq![f(s[k])->0])[r.len() as int] == f(s[k])->0);
    } else {
        assert(d[k] == s[k]);
        lemma_filter_map_keeps(d, f, k);
        let i = choose|i: int| 0 <= i < r.len() && r[i] == f(s[k])->0;
        match f(s.last()) {
            Some(v) => {
                assert((r + seq![v])[i] == r[i]);
            },
            None => {},
        }
    }
}

/// Every file of `archive/pc/mod` whose name (without `.disabled`) ends in `.archive`,
/// or in `.xl` without being an `.archive.xl` sidecar, or that is an `.archive.xl`
/// sidecar whose `.archive` is not there, is listed as an archive mod at its path, with
/// its display name, enabled unless its name ends in `.disabled`.
pub proof fn law_archive_files_are_listed(install_dir: Seq<char>, tree: InstallTree, k: int)
    requires
        0 <= k < tree.archive_mod@.len(),
        tree.archive_mod@[k].is_file,
        ({
            let base = without_suffix(tree.archive_mod@[k].name@, ".disabled"@);
            ||| ends_with(base, ".archive"@)
            ||| (ends_with(base, ".xl"@) && !ends_with(base, ".archive.xl"@))
            ||| (ends_with(base, ".archive.xl"@) && forall|j: int|
                0 <= j < tree.archive_mod@.len() ==> without_suffix(
                    #[trigger] tree.archive_mod@[j].name@,
                    ".disabled"@,
                ) != without_suffix(base, ".xl"@))
        }),
    ensures
        scanned_mods(install_dir, tree).contains(
            ModView {
                name: clean_name(tree.archive_mod@[k].name@),
                mod_type: ModType::Archive,
                path: path_join(path_join(install_dir, "archive/pc/mod"@), tree.archive_mod@[k].name@),
                enabled: !ends_with(tree.archive_mod@[k].name@, ".disabled"@),
            },
        ),
{
    let entries = tree.archive_mod@;
    let e = entries[k];
    let dir = path_join(install_dir, scan_subdir(ModType::Archive));
    let v = ModView {
        name: clean_name(e.name@),
        mod_type: ModType::Archive,
        path: path_join(dir, e.name@),
        enabled: !ends_with(e.name@, ".disabled"@),
    };
    let base = without_suffix(e.name@, ".disabled"@);
    if ends_with(base, ".archive.xl"@) && has_base_name(entries, without_suffix(base, ".xl"@)) {
        let j = choose|j: int|
            0 <= j < entries.len() && without_suffix(#[trigger] entries[j].name@, ".disabled"@)
                == without_suffix(base, ".xl"@);
    }
    if ends_with(base, ".archive"@) && ends_with(base, ".archive.xl"@) {
        reveal_strlit(".archive");
        reveal_strlit(".archive.xl");
        let n = base.len() as int;
        assert(base.subrange(n - 8, n)[7] == base[n - 1]);
        assert(base.subrange(n - 11, n)[10] == base[n - 1]);
    }
    assert(mod_of(ModType::Archive, dir, entries, e) == Some(v));
    let f = |x: FsEntry| mod_of(ModType::Archive, dir, entries, x);
    lemma_filter_map_keeps(entries, f, k);
    let a = scan_kind(install_dir, tree, ModType::Archive);
    assert(a.contains(v));
    let i = choose|i: int| 0 <= i < a.len() && a[i] == v;
    let all = scanned_mods(install_dir, tree);
    assert(all[i] == v);
}

/// The scanner path of an entry `name` of a kind's directory below `dir`.
pub open spec fn scanner_path(dir: Seq<char>, t: ModType, name: Seq<char>) -> Seq<char> {
    path_join(path_join(dir, scan_subdir(t)), name)
}

/// The components that an install records are the paths that the scanner reports: a
/// file extracted into a kind's directory (directly, for archive files; at any depth
/// below an entry `name`, for the other kinds) belongs to the component at the path the
/// scanner gives an entry `name` of that directory, for an install directory that does
/// not end in `/`.
pub proof fn law_components_are_scanner_paths(
    dir: Seq<char>,
    t: ModType,
    name: Seq<char>,
    rest: Seq<char>,
)
    requires
        dir.len() > 0,
        dir.last() != '/',
        name.len() > 0,
        !name.contains('/'),
        !name.contains('\\'),
        !rest.contains('\\'),
        rest.len() == 0 || rest[0] == '/',
        t == ModType::Archive ==> rest.len() == 0,
    ensures
        component_of(dir, scan_subdir(t) + "/"@ + name + rest) == Some(scanner_path(dir, t, name)),
{
    reveal_strlit("/");
    let sub = scan_subdir(t);
    match t {
        ModType::Archive => {
            lemma_archive_component(dir, name);
            assert(rest =~= Seq::<char>::empty());
        },
        ModType::Cet => lemma_cet_component(dir, name, rest),
        ModType::Red4ext => lemma_red4ext_component(dir, name, rest),
        ModType::Redscript => lemma_redscript_component(dir, name, rest),
        ModType::Tweak => lemma_tweak_component(dir, name, rest),
        ModType::Redmod => lemma_redmod_component(dir, name, rest),
    }
    assert(sub.len() > 0 && sub[0] != '/' && sub.last() != '/') by {
        reveal_strlit("archive/pc/mod");
        reveal_strlit("mods");
        reveal_strlit("bin/x64/plugins/cyber_engine_tweaks/mods");
        reveal_strlit("red4ext/plugins");
        reveal_strlit("r6/scripts");
        reveal_strlit("r6/tweaks");
    }
    assert(name[0] != '/');
    assert(path_join(dir, sub) == dir + seq!['/'] + sub);
    assert((dir + seq!['/'] + sub).last() == sub.last());
    assert(scanner_path(dir, t, name) == dir + seq!['/'] + sub + seq!['/'] + name);
    assert(dir + "/"@ + (sub + "/"@) + name =~= dir + seq!['/'] + sub + seq!['/'] + name);
}

/// The deduplicated, sorted set of scanner-visible top-level paths under
/// `install_dir` that the extracted relative paths belong to.
pub fn derive_components(install_dir: &str, extracted: &[String]) -> (r: Vec<String>)
    ensures
        strictly_ascending(string_views(r@)),
        forall|v: Seq<char>| #[trigger] string_views(r@).contains(v) <==> is_component(
            install_dir@,
            string_views(extracted@),
            v,
        ),
{
    let dir = chars_of(install_dir);
    let ghost ev = string_views(extracted@);
    let mut found: Vec<String> = Vec::new();
    let n = extracted.len();
    let mut i: usize = 0;
    while i < n
        invariant
            n == extracted@.len(),
            ev == string_views(extracted@),
            dir@ == install_dir@,
            i <= n,
            forall|v: Seq<char>| #[trigger] string_views(found@).contains(v) <==> is_component(
                install_dir@,
                ev.take(i as int),
                v,
            ),
        decreases n - i,
    {
        let ghost before = string_views(found@);
        let c = component_for(dir.as_slice(), extracted[i].as_str());
        assert(ev[i as int] == extracted@[i as int]@);
        let ghost cv = c;
        match c {
            Some(v) => {
                found.push(v);
                assert(string_views(found@) =~= before.push(cv->0@));
            },
            None => {
                assert(string_views(found@) == before);
            },
        }
        proof {
            let now = string_views(found@);
            assert forall|v: Seq<char>| #[trigger] now.contains(v) <==> is_component(
                install_dir@,
                ev.take(i as int + 1),
                v,
            ) by {
                let t = ev.take(i as int + 1);
                assert(t[i as int] == ev[i as int]);
                if is_component(install_dir@, t, v) {
                    let j = choose|j: int|
                        0 <= j < t.len() && component_of(install_dir@, #[trigger] t[j]) == Some(v);
                    if j < i {
                        assert(ev.take(i as int)[j] == t[j]);
                        assert(is_component(install_dir@, ev.take(i as int), v));
                        assert(before.contains(v));
                        let q = choose|q: int| 0 <= q < before.len() && #[trigger] before[q] == v;
                        assert(now[q] == v);
                    } else {
                        assert(now[now.len() - 1] == v);
                    }
                }
                if now.contains(v) {
                    let q = choose|q: int| 0 <= q < now.len() && #[trigger] now[q] == v;
                    if q < before.len() {
                        assert(before[q] == v);
                        assert(before.contains(v));
                        assert(is_component(install_dir@, ev.take(i as int), v));
                        let j = choose|j: int|
                            0 <= j < ev.take(i as int).len() && component_of(
                                install_dir@,
                                #[trigger] ev.take(i as int)[j],
                            ) == Some(v);
                        assert(t[j] == ev.take(i as int)[j]);
                    } else {
                        assert(component_of(install_dir@, t[i as int]) == Some(v));
                    }
                }
            }
        }
        i = i + 1;
    }
    assert(ev.take(n as int) =~= ev);
    sorted_distinct_strings(found)
}

// ── Directory scanning ───────────────────────────────────────────────
//
//   archive/pc/mod            .archive files and standalone .xl files; an .archive.xl
//                             sidecar is skipped when its .archive is present
//   mods                      REDmod directories holding an info.json
//   bin/x64/plugins/cyber_engine_tweaks/mods   CET directories
//   red4ext/plugins           RED4ext directories holding a .dll
//   r6/scripts                REDscript directories holding a .reds file at any depth
//   r6/tweaks                 TweakXL directories and .yaml/.yml/.tweak files
//
// A `.disabled` suffix on the name marks a mod as disabled.

/// The directory below the install directory that holds mods of a kind.
pub open spec fn scan_subdir(t: ModType) -> Seq<char> {
    match t {
        ModType::Archive => "archive/pc/mod"@,
        ModType::Redmod => "mods"@,
        ModType::Cet => "bin/x64/plugins/cyber_engine_tweaks/mods"@,
        ModType::Red4ext => "red4ext/plugins"@,
        ModType::Redscript => "r6/scripts"@,
        ModType::Tweak => "r6/tweaks"@,
    }
}

/// The listing that was read for a kind of mod.
pub open spec fn listing(tree: InstallTree, t: ModType) -> Seq<FsEntry> {
    match t {
        ModType::Archive => tree.archive_mod@,
        ModType::Redmod => tree.mods@,
        ModType::Cet => tree.cet_mods@,
        ModType::Red4ext => tree.red4ext_plugins@,
        ModType::Redscript => tree.r6_scripts@,
        ModType::Tweak => tree.r6_tweaks@,
    }
}

/// An entry that exists (`Path::exists`: anything a link resolves to, of any type).
pub open spec fn entry_exists(e: FsEntry) -> bool {
    e.exists
}

/// Index of the last `c` in `s`.
pub open spec fn last_index(s: Seq<char>, c: char) -> Option<int>
    decreases s.len(),
{
    if s.len() == 0 {
        None
    } else if s.last() == c {
        Some(s.len() - 1)
    } else {
        last_index(s.drop_last(), c)
    }
}

/// The extension of a file name, as `Path::extension` gives it: the text after the
/// last `.`, unless that dot starts the name (or the name is `..`).
pub open spec fn extension(name: Seq<char>) -> Option<Seq<char>> {
    if name == ".."@ {
        None
    } else {
        match last_index(name, '.') {
            Some(i) => if i == 0 {
                None
            } else {
                Some(name.skip(i + 1))
            },
            None => None,
        }
    }
}

/// ASCII letters folded to lower case; other characters unchanged.
pub open spec fn ascii_lower(c: char) -> int {
    if 'A' <= c && c <= 'Z' {
        (c as int) + 32
    } else {
        c as int
    }
}

/// Equality up to ASCII case (`str::eq_ignore_ascii_case`).
pub open spec fn eq_ignore_ascii_case(a: Seq<char>, b: Seq<char>) -> bool {
    a.len() == b.len() && forall|i: int| 0 <= i < a.len() ==> ascii_lower(a[i]) == ascii_lower(b[i])
}

/// An entry is a file with extension `ext`, or a directory with such a file at any depth.
pub open spec fn entry_has_extension(e: FsEntry, ext: Seq<char>) -> bool
    decreases e,
{
    if e.is_file {
        extension(e.name@) == Some(ext)
    } else if e.is_dir {
        exists|i: int|
            0 <= i < e.children@.len() && entry_has_extension(#[trigger] e.children@[i], ext)
    } else {
        false
    }
}

/// A listing holds a file with extension `ext` at any depth.
pub open spec fn dir_contains_extension(entries: Seq<FsEntry>, ext: Seq<char>) -> bool {
    exists|i: int| 0 <= i < entries.len() && entry_has_extension(#[trigger] entries[i], ext)
}

/// Some entry of the listing has the given name once a `.disabled` suffix is removed.
pub open spec fn has_base_name(entries: Seq<FsEntry>, base: Seq<char>) -> bool {
    exists|i: int|
        0 <= i < entries.len() && without_suffix(#[trigger] entries[i].name@, ".disabled"@) == base
}

/// The mod that an entry of the listing for `t` stands for, if it is one.
pub open spec fn mod_of(t: ModType, dir: Seq<char>, entries: Seq<FsEntry>, e: FsEntry) -> Option<
    ModView,
> {
    let name = e.name@;
    let base = without_suffix(name, ".disabled"@);
    let view = ModView {
        name: clean_name(name),
        mod_type: t,
        path: path_join(dir, name),
        enabled: !ends_with(name, ".disabled"@),
    };
    let found = match t {
        ModType::Archive => e.is_file && (ends_with(base, ".archive"@) || ends_with(base, ".xl"@)
            || ends_with(base, ".archive.xl"@)) && !(ends_with(base, ".archive.xl"@)
            && has_base_name(entries, without_suffix(base, ".xl"@))),
        ModType::Redmod => e.is_dir && exists|i: int|
            0 <= i < e.children@.len() && (#[trigger] e.children@[i]).name@ == "info.json"@
                && entry_exists(e.children@[i]),
        ModType::Cet => e.is_dir,
        ModType::Red4ext => e.is_dir && exists|i: int|
            0 <= i < e.children@.len() && match extension((#[trigger] e.children@[i]).name@) {
                Some(x) => eq_ignore_ascii_case(x, "dll"@),
                None => false,
            },
        ModType::Redscript => e.is_dir && dir_contains_extension(e.children@, "reds"@),
        ModType::Tweak => e.is_dir || (e.is_file && (ends_with(base, ".yaml"@) || ends_with(
            base,
            ".yml"@,
        ) || ends_with(base, ".tweak"@))),
    };
    if found {
        Some(view)
    } else {
        None
    }
}

/// The mods of one kind, in the order of the listing.
pub open spec fn scan_kind(install_dir: Seq<char>, tree: InstallTree, t: ModType) -> Seq<ModView> {
    let dir = path_join(install_dir, scan_subdir(t));
    let entries = listing(tree, t);
    entries.filter_map(|e: FsEntry| mod_of(t, dir, entries, e))
}

/// All mods the scanners find, kind after kind.
pub open spec fn scanned_mods(install_dir: Seq<char>, tree: InstallTree) -> Seq<ModView> {
    scan_kind(install_dir, tree, ModType::Archive) + scan_kind(install_dir, tree, ModType::Redmod)
        + scan_kind(install_dir, tree, ModType::Cet) + scan_kind(install_dir, tree, ModType::Red4ext)
        + scan_kind(install_dir, tree, ModType::Redscript) + scan_kind(
        install_dir,
        tree,
        ModType::Tweak,
    )
}

/// The position of a kind in the alphabetical order of the kinds' names
/// (Archive, Cet, Red4ext, Redmod, Redscript, Tweak).
pub open spec fn type_rank(t: ModType) -> u64 {
    match t {
        ModType::Archive => 0,
        ModType::Cet => 1,
        ModType::Red4ext => 2,
        ModType::Redmod => 3,
        ModType::Redscript => 4,
        ModType::Tweak => 5,
    }
}

/// Mods are listed by kind, then by lower-cased name.
pub open spec fn mod_order_key(v: ModView) -> KeyView {
    (type_rank(v.mod_type), 0u64, lowercase(v.name))
}

/// The name of a kind as `Debug` prints it.
pub open spec fn kind_name(t: ModType) -> Seq<char> {
    match t {
        ModType::Archive => "Archive"@,
        ModType::Redmod => "Redmod"@,
        ModType::Cet => "Cet"@,
        ModType::Red4ext => "Red4ext"@,
        ModType::Redscript => "Redscript"@,
        ModType::Tweak => "Tweak"@,
    }
}

/// Kinds are ranked in the order of their printed names: one kind comes before another
/// exactly when its name sorts before the other's.
pub proof fn law_type_rank_is_name_order(a: ModType, b: ModType)
    ensures
        (type_rank(a) < type_rank(b)) == text_lt(kind_name(a), kind_name(b)),
{
    reveal_strlit("Archive");
    reveal_strlit("Redmod");
    reveal_strlit("Cet");
    reveal_strlit("Red4ext");
    reveal_strlit("Redscript");
    reveal_strlit("Tweak");
    reveal_with_fuel(text_le, 5);
    let x = kind_name(a);
    let y = kind_name(b);
    if x.len() > 0 && y.len() > 0 && x[0] != y[0] {
        assert(x != y);
    }
}

fn type_rank_exec(t: &ModType) -> (r: u64)
    ensures
        r == type_rank(*t),
{
    match t {
        ModType::Archive => 0,
        ModType::Cet => 1,
        ModType::Red4ext => 2,
        ModType::Redmod => 3,
        ModType::Redscript => 4,
        ModType::Tweak => 5,
    }
}

/// Index of the last `c` in `s`.
fn last_index_exec(s: &[char], c: char) -> (r: Option<usize>)
    ensures
        r matches Some(i) ==> last_index(s@, c) == Some(i as int) && i < s.len(),
        r is None ==> last_index(s@, c) is None,
{
    let mut k: usize = s.len();
    assert(s@.take(s@.len() as int) == s@);
    while k > 0
        invariant
            k <= s@.len(),
            last_index(s@, c) == last_index(s@.take(k as int), c),
        decreases k,
    {
        assert(s@.take(k as int).last() == s@[k - 1]);
        assert(s@.take(k as int).drop_last() == s@.take(k as int - 1));
        if s[k - 1] == c {
            return Some(k - 1);
        }
        k = k - 1;
    }
    None
}

/// `Path::extension` of a file name.
fn extension_exec(name: &[char]) -> (r: Option<Vec<char>>)
    ensures
        r matches Some(x) ==> extension(name@) == Some(x@),
        r is None ==> extension(name@) is None,
{
    if chars_eq_str(name, "..") {
        return None;
    }
    match last_index_exec(name, '.') {
        Some(i) => if i == 0 {
            None
        } else {
            Some(sub_chars(name, i + 1, name.len()))
        },
        None => None,
    }
}

/// `str::eq_ignore_ascii_case`.
fn eq_ignore_ascii_case_exec(a: &[char], b: &[char]) -> (r: bool)
    ensures
        r == eq_ignore_ascii_case(a@, b@),
{
    if a.len() != b.len() {
        return false;
    }
    let n = a.len();
    let mut i: usize = 0;
    while i < n
        invariant
            n == a@.len(),
            n == b@.len(),
            i <= n,
            forall|j: int| 0 <= j < i ==> ascii_lower(a@[j]) == ascii_lower(b@[j]),
        decreases n - i,
    {
        let x = a[i];
        let y = b[i];
        let same = if x == y {
            true
        } else if 'A' <= x && x <= 'Z' && 'a' <= y && y <= 'z' {
            (x as u32) + 32 == (y as u32)
        } else if 'a' <= x && x <= 'z' && 'A' <= y && y <= 'Z' {
            (y as u32) + 32 == (x as u32)
        } else {
            false
        };
        assert(same == (ascii_lower(x) == ascii_lower(y)));
        if !same {
            return false;
        }
        i = i + 1;
    }
    true
}

/// Whether an entry is a file with the extension, or a directory holding one at any depth.
fn entry_has_extension_exec(e: &FsEntry, ext: &[char]) -> (r: bool)
    ensures
        r == entry_has_extension(*e, ext@),
    decreases e,
{
    if e.is_file {
        let en = chars_of(e.name.as_str());
        return match extension_exec(en.as_slice()) {
            Some(x) => chars_eq(x.as_slice(), ext),
            None => false,
        };
    }
    if !e.is_dir {
        return false;
    }
    let n = e.children.len();
    let mut i: usize = 0;
    while i < n
        invariant
            n == e.children@.len(),
            i <= n,
            !e.is_file,
            e.is_dir,
            forall|j: int| 0 <= j < i ==> !entry_has_extension(#[trigger] e.children@[j], ext@),
        decreases n - i,
    {
        assert(decreases_to!(*e => e.children@[i as int]));
        if entry_has_extension_exec(&e.children[i], ext) {
            assert(entry_has_extension(e.children@[i as int], ext@));
            return true;
        }
        i = i + 1;
    }
    false
}

/// Whether a directory listing holds a file with extension `ext` at any depth.
fn dir_contains_extension_exec(entries: &Vec<FsEntry>, ext: &str) -> (r: bool)
    ensures
        r == dir_contains_extension(entries@, ext@),
{
    let x = chars_of(ext);
    let n = entries.len();
    let mut i: usize = 0;
    while i < n
        invariant
            n == entries@.len(),
            x@ == ext@,
            i <= n,
            forall|j: int| 0 <= j < i ==> !entry_has_extension(#[trigger] entries@[j], ext@),
        decreases n - i,
    {
        if entry_has_extension_exec(&entries[i], x.as_slice()) {
            assert(entry_has_extension(entries@[i as int], ext@));
            return true;
        }
        i = i + 1;
    }
    false
}

/// Whether some entry has the name `base` once `.disabled` is removed.
fn has_base_name_exec(entries: &Vec<FsEntry>, base: &[char]) -> (r: bool)
    ensures
        r == has_base_name(entries@, base@),
{
    let n = entries.len();
    let mut i: usize = 0;
    while i < n
        invariant
            n == entries@.len(),
            i <= n,
            forall|j: int|
                0 <= j < i ==> without_suffix(#[trigger] entries@[j].name@, ".disabled"@) != base@,
        decreases n - i,
    {
        let nm = chars_of(entries[i].name.as_str());
        let b = without_suffix_chars(nm.as_slice(), ".disabled");
        if chars_eq(b.as_slice(), base) {
            return true;
        }
        i = i + 1;
    }
    false
}

/// Whether some child is an existing `info.json`.
fn has_info_json(children: &Vec<FsEntry>) -> (r: bool)
    ensures
        r == exists|i: int|
            0 <= i < children@.len() && (#[trigger] children@[i]).name@ == "info.json"@
                && entry_exists(children@[i]),
{
    let n = children.len();
    let mut i: usize = 0;
    while i < n
        invariant
            n == children@.len(),
            i <= n,
            forall|j: int|
                0 <= j < i ==> !((#[trigger] children@[j]).name@ == "info.json"@ && entry_exists(
                    children@[j],
                )),
        decreases n - i,
    {
        let c = &children[i];
        if chars_eq_str(chars_of(c.name.as_str()).as_slice(), "info.json") && c.exists {
            assert(children@[i as int].name@ == "info.json"@);
            return true;
        }
        i = i + 1;
    }
    false
}

/// Whether some child has a `.dll` extension, in any ASCII case.
fn has_dll(children: &Vec<FsEntry>) -> (r: bool)
    ensures
        r == exists|i: int|
            0 <= i < children@.len() && match extension((#[trigger] children@[i]).name@) {
                Some(x) => eq_ignore_ascii_case(x, "dll"@),
                None => false,
            },
{
    let dll = chars_of("dll");
    let n = children.len();
    let mut i: usize = 0;
    while i < n
        invariant
            n == children@.len(),
            dll@ == "dll"@,
            i <= n,
            forall|j: int|
                0 <= j < i ==> !match extension((#[trigger] children@[j]).name@) {
                    Some(x) => eq_ignore_ascii_case(x, "dll"@),
                    None => false,
                },
        decreases n - i,
    {
        let nm = chars_of(children[i].name.as_str());
        match extension_exec(nm.as_slice()) {
            Some(x) => {
                if eq_ignore_ascii_case_exec(x.as_slice(), dll.as_slice()) {
                    assert(extension(children@[i as int].name@) == Some(x@));
                    return true;
                }
            },
            None => {},
        }
        i = i + 1;
    }
    false
}

/// The mod that an entry of the listing for `t` stands for, if it is one.
fn mod_of_exec(t: ModType, dir: &[char], entries: &Vec<FsEntry>, e: &FsEntry) -> (r: Option<Mod>)
    ensures
        r matches Some(m) ==> mod_of(t, dir@, entries@, *e) == Some(m@),
        r is None ==> mod_of(t, dir@, entries@, *e) is None,
{
    let name = chars_of(e.name.as_str());
    let nm = name.as_slice();
    let base = without_suffix_chars(nm, ".disabled");
    let b = base.as_slice();
    let found = match t {
        ModType::Archive => {
            if e.is_file && (has_suffix_str(b, ".archive") || has_suffix_str(b, ".xl")
                || has_suffix_str(b, ".archive.xl")) {
                if has_suffix_str(b, ".archive.xl") {
                    let parent = without_suffix_chars(b, ".xl");
                    !has_base_name_exec(entries, parent.as_slice())
                } else {
                    true
                }
            } else {
                false
            }
        },
        ModType::Redmod => e.is_dir && has_info_json(&e.children),
        ModType::Cet => e.is_dir,
        ModType::Red4ext => e.is_dir && has_dll(&e.children),
        ModType::Redscript => e.is_dir && dir_contains_extension_exec(&e.children, "reds"),
        ModType::Tweak => e.is_dir || (e.is_file && (has_suffix_str(b, ".yaml") || has_suffix_str(
            b,
            ".yml",
        ) || has_suffix_str(b, ".tweak"))),
    };
    if found {
        let path = join_path(dir, nm);
        Some(
            Mod {
                name: clean_mod_name(e.name.as_str()),
                mod_type: t,
                path: string_of(path.as_slice()),
                enabled: !has_suffix_str(nm, ".disabled"),
            },
        )
    } else {
        None
    }
}

/// Appends the mods of one kind found in its listing.
fn scan_kind_into(t: ModType, install_dir: &[char], tree: &InstallTree, mods: &mut Vec<Mod>)
    ensures
        mod_views(final(mods)@) == mod_views(old(mods)@) + scan_kind(install_dir@, *tree, t),
{
    let sub = match t {
        ModType::Archive => chars_of("archive/pc/mod"),
        ModType::Redmod => chars_of("mods"),
        ModType::Cet => chars_of("bin/x64/plugins/cyber_engine_tweaks/mods"),
        ModType::Red4ext => chars_of("red4ext/plugins"),
        ModType::Redscript => chars_of("r6/scripts"),
        ModType::Tweak => chars_of("r6/tweaks"),
    };
    let entries = match t {
        ModType::Archive => &tree.archive_mod,
        ModType::Redmod => &tree.mods,
        ModType::Cet => &tree.cet_mods,
        ModType::Red4ext => &tree.red4ext_plugins,
        ModType::Redscript => &tree.r6_scripts,
        ModType::Tweak => &tree.r6_tweaks,
    };
    assert(entries@ == listing(*tree, t));
    let dir = join_path(install_dir, sub.as_slice());
    let ghost f = |e: FsEntry| mod_of(t, dir@, entries@, e);
    let ghost base = mod_views(mods@);
    let n = entries.len();
    let mut i: usize = 0;
    assert(entries@.take(0).filter_map(f) =~= Seq::<ModView>::empty());
    while i < n
        invariant
            n == entries@.len(),
            i <= n,
            f == (|e: FsEntry| mod_of(t, dir@, entries@, e)),
            mod_views(mods@) == base + entries@.take(i as int).filter_map(f),
        decreases n - i,
    {
        proof {
            entries@.lemma_filter_map_take_succ(f, i as int);
        }
        let ghost before = mod_views(mods@);
        match mod_of_exec(t, dir.as_slice(), entries, &entries[i]) {
            Some(m) => {
                mods.push(m);
                assert(mod_views(mods@) =~= before.push(mods@.last()@));
                assert(mod_views(mods@) =~= base + entries@.take(i as int + 1).filter_map(f));
            },
            None => {
                assert(mod_views(mods@) =~= base + entries@.take(i as int + 1).filter_map(f));
            },
        }
        i = i + 1;
    }
    assert(entries@.take(n as int) =~= entries@);
}

fn scan_archive_mods(install_dir: &[char], tree: &InstallTree, mods: &mut Vec<Mod>)
    ensures
        mod_views(final(mods)@) == mod_views(old(mods)@) + scan_kind(
            install_dir@,
            *tree,
            ModType::Archive,
        ),
{
    scan_kind_into(ModType::Archive, install_dir, tree, mods)
}

fn scan_redmod_mods(install_dir: &[char], tree: &InstallTree, mods: &mut Vec<Mod>)
    ensures
        mod_views(final(mods)@) == mod_views(old(mods)@) + scan_kind(
            install_dir@,
            *tree,
            ModType::Redmod,
        ),
{
    scan_kind_into(ModType::Redmod, install_dir, tree, mods)
}

fn scan_cet_mods(install_dir: &[char], tree: &InstallTree, mods: &mut Vec<Mod>)
    ensures
        mod_views(final(mods)@) == mod_views(old(mods)@) + scan_kind(
            install_dir@,
            *tree,
            ModType::Cet,
        ),
{
    scan_kind_into(ModType::Cet, install_dir, tree, mods)
}

fn scan_red4ext_mods(install_dir: &[char], tree: &InstallTree, mods: &mut Vec<Mod>)
    ensures
        mod_views(final(mods)@) == mod_views(old(mods)@) + scan_kind(
            install_dir@,
            *tree,
            ModType::Red4ext,
        ),
{
    scan_kind_into(ModType::Red4ext, install_dir, tree, mods)
}

fn scan_redscript_mods(install_dir: &[char], tree: &InstallTree, mods: &mut Vec<Mod>)
    ensures
        mod_views(final(mods)@) == mod_views(old(mods)@) + scan_kind(
            install_dir@,
            *tree,
            ModType::Redscript,
        ),
{
    scan_kind_into(ModType::Redscript, install_dir, tree, mods)
}

fn scan_tweak_mods(install_dir: &[char], tree: &InstallTree, mods: &mut Vec<Mod>)
    ensures
        mod_views(final(mods)@) == mod_views(old(mods)@) + scan_kind(
            install_dir@,
            *tree,
            ModType::Tweak,
        ),
{
    scan_kind_into(ModType::Tweak, install_dir, tree, mods)
}

/// The mods of a Cyberpunk 2077 install directory, as found in `tree`, sorted by kind
/// and then by lower-cased name (stably, so equal keys keep the scan order).
pub fn list_mods(install_dir: &str, tree: &InstallTree) -> (r: Vec<Mod>)
    ensures
        stably_sorted(mod_views(r@), scanned_mods(install_dir@, *tree), |v: ModView| mod_order_key(v)),
{
    let base = chars_of(install_dir);
    let b = base.as_slice();
    let mut mods: Vec<Mod> = Vec::new();
    scan_archive_mods(b, tree, &mut mods);
    scan_redmod_mods(b, tree, &mut mods);
    scan_cet_mods(b, tree, &mut mods);
    scan_red4ext_mods(b, tree, &mut mods);
    scan_redscript_mods(b, tree, &mut mods);
    scan_tweak_mods(b, tree, &mut mods);
    assert(mod_views(mods@) =~= scanned_mods(install_dir@, *tree));
    let ghost scanned = mods@;
    let mut keys: Vec<SortKey> = Vec::new();
    let n = mods.len();
    let mut i: usize = 0;
    while i < n
        invariant
            n == mods@.len(),
            i <= n,
            keys@.len() == i,
            forall|j: int| 0 <= j < i ==> #[trigger] keys@[j]@ == mod_order_key(mods@[j]@),
        decreases n - i,
    {
        let lower = to_lowercase(mods[i].name.as_str());
        let text = chars_of(lower.as_str());
        keys.push(SortKey { major: type_rank_exec(&mods[i].mod_type), minor: 0, text });
        i = i + 1;
    }
    let ghost kf = |m: Mod| mod_order_key(m@);
    let sorted = sort_stable(mods, keys, Ghost(kf));
    proof {
        let f = |m: Mod| m@;
        let kv = |v: ModView| mod_order_key(v);
        assert(kf == (|x: Mod| kv(f(x))));
        lemma_stably_sorted_map(sorted@, scanned, f, kv);
    }
    sorted
}

} // verus!
