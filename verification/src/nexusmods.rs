use vstd::prelude::*;
use vstd::utf8::encode_utf8;

use crate::sorting::{
    lemma_stably_sorted_map, lemma_strictly_ascending_unique, sort_stable, sorted_distinct_strings,
    stably_sorted, strictly_ascending, KeyView, SortKey,
};
use crate::text::{
    append_str, chars_eq, copy_opt, decimal, decimal_string, ends_with, has_suffix_str, join,
    join_strings, opt_view, or_default, split_chars, string_or, string_views, to_uppercase,
    uppercase,
    before_char, before_char_chars, chars_eq_str, chars_of, contains_seq, contains_str, find_piece,
    first_index, has_prefix_str, owned, parse_uint, parse_unsigned, split_char, split_on,
    split_once, starts_with, string_of, strip_prefix, strip_prefix_chars, sub_chars, trim,
    trim_chars, trim_end_char, trim_end_matches, views, lemma_before_char_concat, is_whitespace,
};

verus! {

// ── Parsed references ─────────────────────────────────────────────────

/// A mod reference read from a NexusMods URL or an NXM link.
pub struct ParsedModRef {
    pub game_domain: String,
    pub mod_id: u64,
    pub file_id: Option<u64>,
    pub nxm_key: Option<String>,
    pub nxm_expires: Option<u64>,
    pub nxm_user_id: Option<u64>,
}

/// The abstract value of a [`ParsedModRef`].
pub struct ModRefView {
    pub game_domain: Seq<char>,
    pub mod_id: u64,
    pub file_id: Option<u64>,
    pub nxm_key: Option<Seq<char>>,
    pub nxm_expires: Option<u64>,
    pub nxm_user_id: Option<u64>,
}

impl View for ParsedModRef {
    type V = ModRefView;

    open spec fn view(&self) -> ModRefView {
        ModRefView {
            game_domain: self.game_domain@,
            mod_id: self.mod_id,
            file_id: self.file_id,
            nxm_key: match self.nxm_key {
                Some(k) => Some(k@),
                None => None,
            },
            nxm_expires: self.nxm_expires,
            nxm_user_id: self.nxm_user_id,
        }
    }
}

/// A collection revision reference read from an NXM link.
pub struct ParsedCollectionRef {
    pub game_domain: String,
    pub slug: String,
    pub revision: u32,
}

/// The abstract value of a [`ParsedCollectionRef`].
pub struct CollectionRefView {
    pub game_domain: Seq<char>,
    pub slug: Seq<char>,
    pub revision: u32,
}

impl View for ParsedCollectionRef {
    type V = CollectionRefView;

    open spec fn view(&self) -> CollectionRefView {
        CollectionRefView { game_domain: self.game_domain@, slug: self.slug@, revision: self.revision }
    }
}

// ── URL / NXM parsing ─────────────────────────────────────────────────

/// An unsigned 64-bit number as `str::parse::<u64>` reads it.
pub open spec fn parse_u64(s: Seq<char>) -> Option<u64> {
    match parse_unsigned(s, u64::MAX as nat) {
        Some(v) => Some(v as u64),
        None => None,
    }
}

/// An unsigned 32-bit number as `str::parse::<u32>` reads it.
pub open spec fn parse_u32(s: Seq<char>) -> Option<u32> {
    match parse_unsigned(s, u32::MAX as nat) {
        Some(v) => Some(v as u32),
        None => None,
    }
}

/// The `/`-separated segments of a path, ignoring trailing slashes.
pub open spec fn path_segments(path: Seq<char>) -> Seq<Seq<char>> {
    split_char(trim_end_char(path, '/'), '/')
}

/// What a web URL refers to:
/// `https://www.nexusmods.com/{game}/mods/{id}`, with any query or fragment ignored.
pub open spec fn web_url_ref(input: Seq<char>) -> Result<ModRefView, Seq<char>> {
    let parts = path_segments(before_char(before_char(input, '?'), '#'));
    match first_index(parts, "mods"@) {
        None => Err("URL does not contain /mods/"@),
        Some(i) => if i == 0 {
            Err("Could not determine game from URL"@)
        } else if i + 1 >= parts.len() {
            Err("Could not determine mod ID from URL"@)
        } else {
            match parse_u64(parts[i + 1]) {
                None => Err("Mod ID is not a number"@),
                Some(id) => Ok(
                    ModRefView {
                        game_domain: parts[i - 1],
                        mod_id: id,
                        file_id: None,
                        nxm_key: None,
                        nxm_expires: None,
                        nxm_user_id: None,
                    },
                ),
            }
        },
    }
}

/// The key, expiry and user id that the `&`-separated query parameters of an NXM link
/// carry; a later parameter overrides an earlier one, and an unreadable number is none.
pub open spec fn nxm_query(params: Seq<Seq<char>>) -> (Option<Seq<char>>, Option<u64>, Option<u64>)
    decreases params.len(),
{
    if params.len() == 0 {
        (None, None, None)
    } else {
        let (k, e, u) = nxm_query(params.drop_last());
        let p = params.last();
        match strip_prefix(p, "key="@) {
            Some(v) => (Some(v), e, u),
            None => match strip_prefix(p, "expires="@) {
                Some(v) => (k, parse_u64(v), u),
                None => match strip_prefix(p, "user_id="@) {
                    Some(v) => (k, e, parse_u64(v)),
                    None => (k, e, u),
                },
            },
        }
    }
}

/// `s` without a leading `nxm://`.
pub open spec fn without_nxm_scheme(s: Seq<char>) -> Seq<char> {
    match strip_prefix(s, "nxm://"@) {
        Some(r) => r,
        None => s,
    }
}

/// What an NXM link refers to:
/// `nxm://{game}/mods/{id}/files/{file}?key=…&expires=…&user_id=…`.
pub open spec fn nxm_ref(input: Seq<char>) -> Result<ModRefView, Seq<char>> {
    let w = without_nxm_scheme(input);
    let (path, query) = match split_once(w, '?') {
        Some(pq) => pq,
        None => (w, Seq::empty()),
    };
    let parts = path_segments(path);
    if parts.len() < 5 {
        Err("NXM link is malformed (too short)"@)
    } else if parts[1] == "collections"@ {
        Err("This is a collection NXM link — use nexus_collection_lookup instead"@)
    } else {
        match parse_u64(parts[2]) {
            None => Err("NXM mod ID is not a number"@),
            Some(mod_id) => match parse_u64(parts[4]) {
                None => Err("NXM file ID is not a number"@),
                Some(file_id) => {
                    let (k, e, u) = nxm_query(split_char(query, '&'));
                    Ok(
                        ModRefView {
                            game_domain: parts[0],
                            mod_id,
                            file_id: Some(file_id),
                            nxm_key: k,
                            nxm_expires: e,
                            nxm_user_id: u,
                        },
                    )
                },
            },
        }
    }
}

/// What a NexusMods URL or NXM link refers to, after trimming white space.
pub open spec fn mod_ref(input: Seq<char>) -> Result<ModRefView, Seq<char>> {
    let t = trim(input);
    if starts_with(t, "nxm://"@) {
        nxm_ref(t)
    } else if contains_seq(t, "nexusmods.com"@) {
        web_url_ref(t)
    } else {
        Err("Not a recognised NexusMods URL or NXM link"@)
    }
}

/// What a collection NXM link refers to:
/// `nxm://{game}/collections/{slug}/revisions/{revision}`.
pub open spec fn collection_ref(input: Seq<char>) -> Result<CollectionRefView, Seq<char>> {
    let parts = path_segments(before_char(without_nxm_scheme(input), '?'));
    if parts.len() < 5 || parts[1] != "collections"@ || parts[3] != "revisions"@ {
        Err("Not a valid collection NXM link"@)
    } else {
        match parse_u32(parts[4]) {
            None => Err("Collection revision number is not valid"@),
            Some(r) => Ok(CollectionRefView { game_domain: parts[0], slug: parts[2], revision: r }),
        }
    }
}

/// The text before the first `c` of `c` followed by anything is empty.
proof fn lemma_before_leading(c: char, rest: Seq<char>)
    ensures
        before_char(seq![c] + rest, c) == Seq::<char>::empty(),
{
    lemma_before_char_concat(seq![c], rest, c);
    assert(seq![c].contains(c)) by {
        assert(seq![c][0] == c);
    }
    crate::text::lemma_first_index(seq![c], c);
    assert(seq![c].take(0) =~= Seq::<char>::empty());
}

/// A text without `c` is all before its first `c`.
proof fn lemma_before_absent(u: Seq<char>, c: char)
    requires
        !u.contains(c),
    ensures
        before_char(u, c) == u,
{
    crate::text::lemma_first_index(u, c);
    if first_index(u, c) is Some {
        let i = first_index(u, c)->0;
        assert(u[i] == c);
        assert(u.contains(c));
    }
}

/// A web URL's fragment is ignored: for a URL `u` with no query and no fragment,
/// `u#f` refers to what `u` refers to (or gives the same error), whatever `f` holds.
pub proof fn law_web_url_ignores_fragment(u: Seq<char>, f: Seq<char>)
    requires
        !u.contains('?'),
        !u.contains('#'),
    ensures
        web_url_ref(u + "#"@ + f) == web_url_ref(u),
{
    reveal_strlit("#");
    let x = u + "#"@ + f;
    let hf = seq!['#'] + f;
    assert(x =~= u + hf);
    lemma_before_char_concat(u, hf, '?');
    lemma_before_char_concat(seq!['#'], f, '?');
    assert(!seq!['#'].contains('?')) by {
        if seq!['#'].contains('?') {
            let k = choose|k: int| 0 <= k < 1 && seq!['#'][k] == '?';
        }
    }
    let g = before_char(f, '?');
    assert(before_char(x, '?') == u + (seq!['#'] + g));
    lemma_before_char_concat(u, seq!['#'] + g, '#');
    lemma_before_leading('#', g);
    assert(before_char(before_char(x, '?'), '#') =~= u);
    lemma_before_absent(u, '?');
    lemma_before_absent(u, '#');
}

/// A NexusMods page URL's fragment is ignored by `parse_mod_ref`: for a URL `u` with no
/// query and no fragment, and without white space at its ends, `u#f` parses as `u`
/// does, for any `f` that does not end in white space.
pub proof fn law_mod_ref_ignores_fragment(u: Seq<char>, f: Seq<char>)
    requires
        !u.contains('?'),
        !u.contains('#'),
        contains_seq(u, "nexusmods.com"@),
        !starts_with(u, "nxm://"@),
        u.len() > 0,
        !is_whitespace(u[0]),
        !is_whitespace(u.last()),
        f.len() == 0 || !is_whitespace(f.last()),
    ensures
        mod_ref(u + "#"@ + f) == mod_ref(u),
{
    reveal_strlit("#");
    reveal_strlit("nxm://");
    reveal_strlit("nexusmods.com");
    let x = u + "#"@ + f;
    assert(x[0] == u[0]);
    assert(x.last() == if f.len() == 0 { '#' } else { f.last() });
    assert(!is_whitespace('#'));
    assert(trim(x) == x);
    assert(trim(u) == u);
    let k = choose|k: int|
        0 <= k && k + "nexusmods.com"@.len() <= u.len() && #[trigger] u.subrange(
            k,
            k + "nexusmods.com"@.len(),
        ) == "nexusmods.com"@;
    assert(x.subrange(k, k + "nexusmods.com"@.len()) =~= u.subrange(k, k + "nexusmods.com"@.len()));
    assert(contains_seq(x, "nexusmods.com"@));
    assert(u.len() >= 6);
    assert(x.subrange(0, 6) =~= u.subrange(0, 6));
    assert(!starts_with(x, "nxm://"@));
    law_web_url_ignores_fragment(u, f);
}

/// `str::parse::<u64>`.
fn parse_u64_exec(s: &[char]) -> (r: Option<u64>)
    ensures
        r == parse_u64(s@),
{
    match parse_uint(s, u64::MAX) {
        Some(v) => Some(v),
        None => None,
    }
}

/// `str::parse::<u32>`.
fn parse_u32_exec(s: &[char]) -> (r: Option<u32>)
    ensures
        r == parse_u32(s@),
{
    match parse_uint(s, u32::MAX as u64) {
        Some(v) => Some(v as u32),
        None => None,
    }
}

/// The `/`-separated segments of a path, ignoring trailing slashes.
fn path_segments_exec(path: &[char]) -> (r: Vec<Vec<char>>)
    ensures
        views(r@) == path_segments(path@),
{
    let t = trim_end_matches(path, '/');
    split_on(t.as_slice(), '/')
}

/// An error message.
fn err_msg<T>(msg: &str) -> (r: Result<T, String>)
    ensures
        r matches Err(e) && e@ == msg@,
{
    Err(owned(msg))
}

/// Parses a mod reference out of a NexusMods web URL.
fn parse_web_url(input: &str) -> (r: Result<ParsedModRef, String>)
    ensures
        r matches Ok(v) ==> web_url_ref(input@) == Ok::<ModRefView, Seq<char>>(v@),
        r matches Err(e) ==> web_url_ref(input@) == Err::<ModRefView, Seq<char>>(e@),
{
    let ic = chars_of(input);
    let a = before_char_chars(ic.as_slice(), '?');
    let b = before_char_chars(a.as_slice(), '#');
    let parts = path_segments_exec(b.as_slice());
    let ghost pv = views(parts@);
    match find_piece(&parts, "mods") {
        None => err_msg("URL does not contain /mods/"),
        Some(i) => {
            if i == 0 {
                return err_msg("Could not determine game from URL");
            }
            if i + 1 >= parts.len() {
                return err_msg("Could not determine mod ID from URL");
            }
            assert(pv[i as int + 1] == parts@[i as int + 1]@);
            match parse_u64_exec(parts[i + 1].as_slice()) {
                None => err_msg("Mod ID is not a number"),
                Some(id) => {
                    assert(pv[i as int - 1] == parts@[i as int - 1]@);
                    Ok(
                        ParsedModRef {
                            game_domain: string_of(parts[i - 1].as_slice()),
                            mod_id: id,
                            file_id: None,
                            nxm_key: None,
                            nxm_expires: None,
                            nxm_user_id: None,
                        },
                    )
                },
            }
        },
    }
}

/// The key, expiry and user id of NXM query parameters.
fn nxm_query_exec(params: &Vec<Vec<char>>) -> (r: (Option<String>, Option<u64>, Option<u64>))
    ensures
        nxm_query(views(params@)) == (
            match r.0 {
                Some(k) => Some(k@),
                None => None,
            },
            r.1,
            r.2,
        ),
{
    let ghost pv = views(params@);
    let mut key: Option<String> = None;
    let mut expires: Option<u64> = None;
    let mut user_id: Option<u64> = None;
    let n = params.len();
    let mut i: usize = 0;
    while i < n
        invariant
            n == params@.len(),
            pv == views(params@),
            i <= n,
            nxm_query(pv.take(i as int)) == (
                match key {
                    Some(k) => Some(k@),
                    None => None,
                },
                expires,
                user_id,
            ),
        decreases n - i,
    {
        assert(pv.take(i as int + 1).drop_last() == pv.take(i as int));
        assert(pv.take(i as int + 1).last() == params@[i as int]@);
        let p = params[i].as_slice();
        match strip_prefix_chars(p, "key=") {
            Some(v) => {
                key = Some(string_of(v.as_slice()));
            },
            None => match strip_prefix_chars(p, "expires=") {
                Some(v) => {
                    expires = parse_u64_exec(v.as_slice());
                },
                None => match strip_prefix_chars(p, "user_id=") {
                    Some(v) => {
                        user_id = parse_u64_exec(v.as_slice());
                    },
                    None => {},
                },
            },
        }
        i = i + 1;
    }
    assert(pv.take(n as int) == pv);
    (key, expires, user_id)
}

/// Parses a mod reference out of an NXM link.
fn parse_nxm(input: &str) -> (r: Result<ParsedModRef, String>)
    ensures
        r matches Ok(v) ==> nxm_ref(input@) == Ok::<ModRefView, Seq<char>>(v@),
        r matches Err(e) ==> nxm_ref(input@) == Err::<ModRefView, Seq<char>>(e@),
{
    let ic = chars_of(input);
    let w = match strip_prefix_chars(ic.as_slice(), "nxm://") {
        Some(rest) => rest,
        None => ic,
    };
    assert(w@ == without_nxm_scheme(input@));
    let (path, query) = match crate::text::find_char(w.as_slice(), '?') {
        Some(q) => (sub_chars(w.as_slice(), 0, q), sub_chars(w.as_slice(), q + 1, w.len())),
        None => (sub_chars(w.as_slice(), 0, w.len()), Vec::new()),
    };
    assert(w@.subrange(0, w@.len() as int) == w@);
    let parts = path_segments_exec(path.as_slice());
    let ghost pv = views(parts@);
    if parts.len() < 5 {
        return err_msg("NXM link is malformed (too short)");
    }
    assert(pv[1] == parts@[1]@);
    assert(pv[0] == parts@[0]@);
    assert(pv[2] == parts@[2]@);
    assert(pv[4] == parts@[4]@);
    if chars_eq_str(parts[1].as_slice(), "collections") {
        return err_msg("This is a collection NXM link — use nexus_collection_lookup instead");
    }
    let mod_id = match parse_u64_exec(parts[2].as_slice()) {
        Some(v) => v,
        None => {
            return err_msg("NXM mod ID is not a number");
        },
    };
    let file_id = match parse_u64_exec(parts[4].as_slice()) {
        Some(v) => v,
        None => {
            return err_msg("NXM file ID is not a number");
        },
    };
    let params = split_on(query.as_slice(), '&');
    let (nxm_key, nxm_expires, nxm_user_id) = nxm_query_exec(&params);
    Ok(
        ParsedModRef {
            game_domain: string_of(parts[0].as_slice()),
            mod_id,
            file_id: Some(file_id),
            nxm_key,
            nxm_expires,
            nxm_user_id,
        },
    )
}

/// Parses a NexusMods mod page URL or an NXM link.
///
/// Accepts:
///   `https://www.nexusmods.com/cyberpunk2077/mods/6945`
///   `https://www.nexusmods.com/cyberpunk2077/mods/6945?tab=files`
///   `nxm://cyberpunk2077/mods/6945/files/12345?key=abc&expires=9999&user_id=1`
pub fn parse_mod_ref(input: &str) -> (r: Result<ParsedModRef, String>)
    ensures
        r matches Ok(v) ==> mod_ref(input@) == Ok::<ModRefView, Seq<char>>(v@),
        r matches Err(e) ==> mod_ref(input@) == Err::<ModRefView, Seq<char>>(e@),
{
    let ic = chars_of(input);
    let t = trim_chars(ic.as_slice());
    let ts = string_of(t.as_slice());
    if has_prefix_str(t.as_slice(), "nxm://") {
        parse_nxm(ts.as_str())
    } else if contains_str(t.as_slice(), "nexusmods.com") {
        parse_web_url(ts.as_str())
    } else {
        err_msg("Not a recognised NexusMods URL or NXM link")
    }
}

/// Parses a collection NXM link such as
/// `nxm://cyberpunk2077/collections/devnx1/revisions/40`.
pub fn parse_collection_ref(input: &str) -> (r: Result<ParsedCollectionRef, String>)
    ensures
        r matches Ok(v) ==> collection_ref(input@) == Ok::<CollectionRefView, Seq<char>>(v@),
        r matches Err(e) ==> collection_ref(input@) == Err::<CollectionRefView, Seq<char>>(e@),
{
    let ic = chars_of(input);
    let w = match strip_prefix_chars(ic.as_slice(), "nxm://") {
        Some(rest) => rest,
        None => ic,
    };
    assert(w@ == without_nxm_scheme(input@));
    let path = before_char_chars(w.as_slice(), '?');
    let parts = path_segments_exec(path.as_slice());
    let ghost pv = views(parts@);
    if parts.len() < 5 {
        return err_msg("Not a valid collection NXM link");
    }
    assert(pv[1] == parts@[1]@);
    assert(pv[3] == parts@[3]@);
    if !chars_eq_str(parts[1].as_slice(), "collections") || !chars_eq_str(
        parts[3].as_slice(),
        "revisions",
    ) {
        return err_msg("Not a valid collection NXM link");
    }
    assert(pv[0] == parts@[0]@);
    assert(pv[2] == parts@[2]@);
    assert(pv[4] == parts@[4]@);
    match parse_u32_exec(parts[4].as_slice()) {
        None => err_msg("Collection revision number is not valid"),
        Some(revision) => Ok(
            ParsedCollectionRef {
                game_domain: string_of(parts[0].as_slice()),
                slug: string_of(parts[2].as_slice()),
                revision,
            },
        ),
    }
}

// ── Installation ──────────────────────────────────────────────────────

/// How the files of a mod archive are laid out.
#[derive(Debug, Clone, Copy, PartialEq, Eq, Structural)]
pub enum InstallStrategy {
    /// Paths are relative to the game root (`archive/pc/mod/`, `red4ext/plugins/`, ...).
    GameRelative,
    /// Only `.archive`/`.xl` files at the root: they go into `archive/pc/mod/`.
    DropIntoArchiveMod,
}

/// A top-level directory that shows a game-relative layout.
pub open spec fn is_game_root_dir(seg: Seq<char>) -> bool {
    seg == "archive"@ || seg == "red4ext"@ || seg == "bin"@ || seg == "r6"@ || seg == "mods"@
        || seg == "engine"@
}

/// The first `/`-separated segment of an entry name.
pub open spec fn first_segment(name: Seq<char>) -> Seq<char> {
    before_char(name, '/')
}

/// The last `/`-separated segment of an entry name.
pub open spec fn last_segment(name: Seq<char>) -> Seq<char> {
    split_char(name, '/').last()
}

/// A file name of an archive mod.
pub open spec fn is_archive_file_name(base: Seq<char>) -> bool {
    ends_with(base, ".archive"@) || ends_with(base, ".xl"@) || ends_with(base, ".archive.xl"@)
}

/// `r` lists, ascending and without repeats, the first segments of the entries.
pub open spec fn is_sorted_top_level(r: Seq<Seq<char>>, entries: Seq<Seq<char>>) -> bool {
    &&& strictly_ascending(r)
    &&& forall|v: Seq<char>| #[trigger] r.contains(v) <==> exists|i: int|
        0 <= i < entries.len() && first_segment(#[trigger] entries[i]) == v
}

/// The error for an archive of unknown layout, naming at most eight top-level entries.
pub open spec fn unrecognised_structure(entries: Seq<Seq<char>>) -> Seq<char> {
    let top = choose|r: Seq<Seq<char>>| is_sorted_top_level(r, entries);
    let shown = if top.len() < 8 {
        top
    } else {
        top.take(8)
    };
    "Unrecognised mod structure. Top-level entries: "@ + join(shown, ", "@)
        + ". Please install this mod manually."@
}

/// The layout of an archive with the given entry names.
pub open spec fn install_strategy(entries: Seq<Seq<char>>) -> Result<InstallStrategy, Seq<char>> {
    if exists|i: int| 0 <= i < entries.len() && is_game_root_dir(first_segment(#[trigger] entries[i])) {
        Ok(InstallStrategy::GameRelative)
    } else if forall|i: int|
        0 <= i < entries.len() && !ends_with(#[trigger] entries[i], "/"@) ==> is_archive_file_name(
            last_segment(entries[i]),
        ) {
        Ok(InstallStrategy::DropIntoArchiveMod)
    } else {
        Err(unrecognised_structure(entries))
    }
}

/// Where, relative to the game root, a file of the archive goes under a layout.
pub open spec fn strategy_destination(strategy: InstallStrategy, name: Seq<char>) -> Seq<char> {
    match strategy {
        InstallStrategy::GameRelative => name,
        InstallStrategy::DropIntoArchiveMod => "archive/pc/mod/"@ + name,
    }
}

/// Where, relative to the game root, an archive entry goes; directories are skipped.
pub open spec fn install_destination(strategy: InstallStrategy, name: Seq<char>) -> Option<
    Seq<char>,
> {
    if ends_with(name, "/"@) {
        None
    } else {
        Some(strategy_destination(strategy, name))
    }
}

/// Where, relative to the game root, a file of the archive goes under a layout.
pub fn destination_for(strategy: InstallStrategy, name: &str) -> (r: String)
    ensures
        r@ == strategy_destination(strategy, name@),
{
    match strategy {
        InstallStrategy::GameRelative => owned(name),
        InstallStrategy::DropIntoArchiveMod => {
            let mut d = owned("archive/pc/mod/");
            append_str(&mut d, name);
            d
        },
    }
}

/// Where, relative to the game root, an archive entry goes; none for a directory entry
/// (a name ending in `/`).
pub fn entry_destination(strategy: InstallStrategy, name: &str) -> (r: Option<String>)
    ensures
        opt_view(r) == install_destination(strategy, name@),
{
    let nc = chars_of(name);
    if has_suffix_str(nc.as_slice(), "/") {
        None
    } else {
        Some(destination_for(strategy, name))
    }
}

/// Any entry inside one of the game's top-level directories (`archive`, `red4ext`,
/// `bin`, `r6`, `mods`, `engine`), or that directory itself, makes the whole archive
/// game-relative, whatever the other entries are.
pub proof fn law_game_root_entry_gives_game_relative(
    entries: Seq<Seq<char>>,
    i: int,
    dir: Seq<char>,
    rest: Seq<char>,
)
    requires
        0 <= i < entries.len(),
        dir == "archive"@ || dir == "red4ext"@ || dir == "bin"@ || dir == "r6"@ || dir == "mods"@
            || dir == "engine"@,
        entries[i] == dir + "/"@ + rest || entries[i] == dir,
    ensures
        install_strategy(entries) == Ok::<InstallStrategy, Seq<char>>(InstallStrategy::GameRelative),
{
    reveal_strlit("archive");
    reveal_strlit("red4ext");
    reveal_strlit("bin");
    reveal_strlit("r6");
    reveal_strlit("mods");
    reveal_strlit("engine");
    reveal_strlit("/");
    assert(!dir.contains('/'));
    if entries[i] == dir {
        lemma_before_absent(dir, '/');
    } else {
        assert(entries[i] =~= dir + (seq!['/'] + rest));
        lemma_before_char_concat(dir, seq!['/'] + rest, '/');
        lemma_before_leading('/', rest);
        assert(dir + Seq::<char>::empty() =~= dir);
    }
    assert(first_segment(entries[i]) == dir);
    assert(is_game_root_dir(first_segment(entries[i])));
}

/// Whether a segment is one of the known game-root directories.
fn is_game_root_dir_exec(seg: &[char]) -> (r: bool)
    ensures
        r == is_game_root_dir(seg@),
{
    chars_eq_str(seg, "archive") || chars_eq_str(seg, "red4ext") || chars_eq_str(seg, "bin")
        || chars_eq_str(seg, "r6") || chars_eq_str(seg, "mods") || chars_eq_str(seg, "engine")
}

/// Decides how the files of an archive are laid out, from its entry names.
pub fn detect_install_strategy(entries: &[String]) -> (r: Result<InstallStrategy, String>)
    ensures
        r matches Ok(s) ==> install_strategy(string_views(entries@)) == Ok::<
            InstallStrategy,
            Seq<char>,
        >(s),
        r matches Err(e) ==> install_strategy(string_views(entries@)) == Err::<
            InstallStrategy,
            Seq<char>,
        >(e@),
{
    let ghost ev = string_views(entries@);
    let n = entries.len();
    let mut i: usize = 0;
    while i < n
        invariant
            n == entries@.len(),
            ev == string_views(entries@),
            i <= n,
            forall|j: int| 0 <= j < i ==> !is_game_root_dir(first_segment(#[trigger] ev[j])),
        decreases n - i,
    {
        let nc = chars_of(entries[i].as_str());
        let first = before_char_chars(nc.as_slice(), '/');
        if is_game_root_dir_exec(first.as_slice()) {
            assert(is_game_root_dir(first_segment(ev[i as int])));
            return Ok(InstallStrategy::GameRelative);
        }
        i = i + 1;
    }
    let mut all_archive = true;
    let mut k: usize = 0;
    while k < n
        invariant
            n == entries@.len(),
            ev == string_views(entries@),
            k <= n,
            all_archive == forall|j: int|
                0 <= j < k && !ends_with(#[trigger] ev[j], "/"@) ==> is_archive_file_name(
                    last_segment(ev[j]),
                ),
        decreases n - k,
    {
        let nc = chars_of(entries[k].as_str());
        if !has_suffix_str(nc.as_slice(), "/") {
            let segs = split_on(nc.as_slice(), '/');
            proof {
                crate::text::lemma_split_any_nonempty(nc@, seq!['/']);
                assert(views(segs@).len() == segs@.len());
            }
            let last = &segs[segs.len() - 1];
            let ok = has_suffix_str(last.as_slice(), ".archive") || has_suffix_str(
                last.as_slice(),
                ".xl",
            ) || has_suffix_str(last.as_slice(), ".archive.xl");
            assert(views(segs@).last() == segs@[segs@.len() - 1]@);
            assert(ok == is_archive_file_name(last_segment(ev[k as int])));
            if !ok {
                all_archive = false;
            }
        }
        k = k + 1;
    }
    if all_archive {
        return Ok(InstallStrategy::DropIntoArchiveMod);
    }
    let mut firsts: Vec<String> = Vec::new();
    let mut m: usize = 0;
    while m < n
        invariant
            n == entries@.len(),
            ev == string_views(entries@),
            m <= n,
            firsts@.len() == m,
            forall|j: int| 0 <= j < m ==> #[trigger] firsts@[j]@ == first_segment(ev[j]),
        decreases n - m,
    {
        let nc = chars_of(entries[m].as_str());
        let first = before_char_chars(nc.as_slice(), '/');
        firsts.push(string_of(first.as_slice()));
        m = m + 1;
    }
    let ghost fv = string_views(firsts@);
    let top = sorted_distinct_strings(firsts);
    let ghost tv = string_views(top@);
    proof {
        assert forall|v: Seq<char>| #[trigger] tv.contains(v) <==> exists|i: int|
            0 <= i < ev.len() && first_segment(#[trigger] ev[i]) == v by {
            if fv.contains(v) {
                let j = choose|j: int| 0 <= j < fv.len() && fv[j] == v;
                assert(first_segment(ev[j]) == v);
            }
            if exists|i: int| 0 <= i < ev.len() && first_segment(#[trigger] ev[i]) == v {
                let i = choose|i: int| 0 <= i < ev.len() && first_segment(#[trigger] ev[i]) == v;
                assert(fv[i] == v);
                assert(fv.contains(v));
            }
        }
        assert(is_sorted_top_level(tv, ev));
        let c = choose|r: Seq<Seq<char>>| is_sorted_top_level(r, ev);
        assert forall|v: Seq<char>| #[trigger] c.contains(v) <==> tv.contains(v) by {}
        lemma_strictly_ascending_unique(c, tv);
    }
    let mut shown: Vec<String> = Vec::new();
    let limit = if top.len() < 8 {
        top.len()
    } else {
        8
    };
    let mut q: usize = 0;
    while q < limit
        invariant
            limit <= top@.len(),
            limit == if tv.len() < 8 {
                tv.len()
            } else {
                8
            },
            tv == string_views(top@),
            q <= limit,
            string_views(shown@) == tv.take(q as int),
        decreases limit - q,
    {
        let c = top[q].clone();
        assert(c@ == tv[q as int]);
        let ghost before = string_views(shown@);
        shown.push(c);
        assert(string_views(shown@) =~= before.push(c@));
        assert(string_views(shown@) =~= tv.take(q as int + 1));
        q = q + 1;
    }
    assert(tv.len() < 8 ==> tv.take(limit as int) == tv);
    let mut msg = owned("Unrecognised mod structure. Top-level entries: ");
    let dirs = join_strings(&shown, ", ");
    append_str(&mut msg, dirs.as_str());
    append_str(&mut msg, ". Please install this mod manually.");
    Err(msg)
}

/// The name of a 7z entry with Windows separators turned into `/`.
pub fn archive_entry_name(raw: &str) -> (r: String)
    ensures
        r@ == crate::text::replace_char(raw@, '\\', '/'),
{
    let rc = chars_of(raw);
    let v = crate::text::replace_chars(rc.as_slice(), '\\', '/');
    string_of(v.as_slice())
}

/// The magic bytes that open a 7z archive.
pub open spec fn seven_zip_magic() -> Seq<u8> {
    seq![0x37u8, 0x7Au8, 0xBCu8, 0xAFu8, 0x27u8, 0x1Cu8]
}

/// Whether the first bytes read from a file mark a 7z archive (else it is taken for a zip).
pub fn is_7z_header(header: &[u8]) -> (r: bool)
    ensures
        r == (header@.len() >= 6 && header@.take(6) == seven_zip_magic()),
{
    if header.len() < 6 {
        return false;
    }
    let r = header[0] == 0x37 && header[1] == 0x7A && header[2] == 0xBC && header[3] == 0xAF
        && header[4] == 0x27 && header[5] == 0x1C;
    if r {
        assert(header@.take(6) =~= seven_zip_magic());
    } else {
        proof {
            if header@.take(6) == seven_zip_magic() {
                assert(header@.take(6)[0] == header@[0]);
                assert(header@.take(6)[1] == header@[1]);
                assert(header@.take(6)[2] == header@[2]);
                assert(header@.take(6)[3] == header@[3]);
                assert(header@.take(6)[4] == header@[4]);
                assert(header@.take(6)[5] == header@[5]);
            }
        }
    }
    r
}

// ── API records ───────────────────────────────────────────────────────

/// What the library shows of a mod.
pub struct NexusModInfo {
    pub mod_id: u64,
    pub name: String,
    pub summary: String,
    pub version: String,
    pub picture_url: Option<String>,
}

/// A downloadable file of a mod.
pub struct NexusModFile {
    pub file_id: u64,
    pub name: String,
    pub version: String,
    pub size_kb: u64,
    pub category: String,
}

/// The abstract value of a [`NexusModFile`].
pub struct ModFileView {
    pub file_id: u64,
    pub name: Seq<char>,
    pub version: Seq<char>,
    pub size_kb: u64,
    pub category: Seq<char>,
}

impl View for NexusModFile {
    type V = ModFileView;

    open spec fn view(&self) -> ModFileView {
        ModFileView {
            file_id: self.file_id,
            name: self.name@,
            version: self.version@,
            size_kb: self.size_kb,
            category: self.category@,
        }
    }
}

/// One file record of the files API reply; every field but the id may be absent.
pub struct ApiFileEntry {
    pub file_id: u64,
    pub name: Option<String>,
    pub version: Option<String>,
    pub size_kb: Option<u64>,
    pub category_name: Option<String>,
}

/// A collection revision as the library shows it.
pub struct NexusCollectionInfo {
    pub name: String,
    pub summary: String,
    pub slug: String,
    pub revision: u32,
    pub mod_count: usize,
    pub game_domain: String,
}

/// One mod of a collection.
pub struct NexusCollectionMod {
    pub mod_id: u64,
    pub file_id: u64,
    pub name: String,
    pub version: String,
    pub game_domain: String,
    pub optional: bool,
}

/// The abstract value of a [`NexusCollectionMod`].
pub struct CollectionModView {
    pub mod_id: u64,
    pub file_id: u64,
    pub name: Seq<char>,
    pub version: Seq<char>,
    pub game_domain: Seq<char>,
    pub optional: bool,
}

impl View for NexusCollectionMod {
    type V = CollectionModView;

    open spec fn view(&self) -> CollectionModView {
        CollectionModView {
            mod_id: self.mod_id,
            file_id: self.file_id,
            name: self.name@,
            version: self.version@,
            game_domain: self.game_domain@,
            optional: self.optional,
        }
    }
}

/// The information of a mod from the mod API reply; absent texts become empty.
pub fn mod_info_from_api(
    mod_id: u64,
    name: String,
    summary: Option<String>,
    version: Option<String>,
    picture_url: Option<String>,
) -> (r: NexusModInfo)
    ensures
        r.mod_id == mod_id,
        r.name@ == name@,
        r.summary@ == or_default(summary, Seq::empty()),
        r.version@ == or_default(version, Seq::empty()),
        opt_view(r.picture_url) == opt_view(picture_url),
{
    let s = match summary {
        Some(s) => s,
        None => String::new(),
    };
    let v = match version {
        Some(v) => v,
        None => String::new(),
    };
    NexusModInfo { mod_id, name, summary: s, version: v, picture_url }
}

/// A file record with defaults for absent fields (an absent category is `MAIN`).
pub open spec fn file_of(e: ApiFileEntry) -> ModFileView {
    ModFileView {
        file_id: e.file_id,
        name: or_default(e.name, Seq::empty()),
        version: or_default(e.version, Seq::empty()),
        size_kb: match e.size_kb {
            Some(k) => k,
            None => 0,
        },
        category: or_default(e.category_name, "MAIN"@),
    }
}

/// The rank of a category: MAIN first, then UPDATE, then the others (OPTIONAL).
pub open spec fn category_rank(cat: Seq<char>) -> u64 {
    let u = uppercase(cat);
    if u == "MAIN"@ {
        0
    } else if u == "UPDATE"@ {
        1
    } else {
        2
    }
}

/// A category that is offered for download: MAIN, UPDATE or OPTIONAL, in any case.
pub open spec fn is_offered_category(cat: Seq<char>) -> bool {
    let u = uppercase(cat);
    u == "MAIN"@ || u == "UPDATE"@ || u == "OPTIONAL"@
}

/// Files are ordered by category, newest (highest file id) first within one.
pub open spec fn file_order_key(f: ModFileView) -> KeyView {
    (category_rank(f.category), (u64::MAX - f.file_id) as u64, Seq::empty())
}

/// The offered files of a reply, in reply order.
pub open spec fn offered_files(entries: Seq<ApiFileEntry>) -> Seq<ModFileView> {
    entries.filter_map(
        |e: ApiFileEntry|
            if is_offered_category(file_of(e).category) {
                Some(file_of(e))
            } else {
                None
            },
    )
}

/// Of ordered files, the first MAIN, the first UPDATE and every OPTIONAL file.
pub open spec fn latest_files(s: Seq<ModFileView>) -> Seq<ModFileView>
    decreases s.len(),
{
    if s.len() == 0 {
        Seq::empty()
    } else {
        let r = latest_files(s.drop_last());
        let f = s.last();
        let rank = category_rank(f.category);
        if rank == 2 || !(exists|j: int|
            0 <= j < s.len() - 1 && category_rank(#[trigger] s[j].category) == rank) {
            r.push(f)
        } else {
            r
        }
    }
}

/// The views of a sequence of files.
pub open spec fn file_views(s: Seq<NexusModFile>) -> Seq<ModFileView> {
    s.map_values(|f: NexusModFile| f@)
}

/// Whether a category is offered, and its rank.
fn category_info(cat: &String) -> (r: (bool, u64))
    ensures
        r.0 == is_offered_category(cat@),
        r.1 == category_rank(cat@),
{
    let u = to_uppercase(cat.as_str());
    let uc = chars_of(u.as_str());
    let main = chars_eq_str(uc.as_slice(), "MAIN");
    let update = chars_eq_str(uc.as_slice(), "UPDATE");
    let optional = chars_eq_str(uc.as_slice(), "OPTIONAL");
    (main || update || optional, if main {
        0
    } else if update {
        1
    } else {
        2
    })
}

/// The files of a mod to offer for download: MAIN, UPDATE and OPTIONAL files only, ordered
/// by category and newest first, keeping only the newest MAIN and the newest UPDATE file.
pub fn mod_files_from_api(entries: &Vec<ApiFileEntry>) -> (r: Vec<NexusModFile>)
    ensures
        exists|sorted: Seq<ModFileView>|
            stably_sorted(sorted, offered_files(entries@), |f: ModFileView| file_order_key(f))
                && file_views(r@) == latest_files(sorted),
{
    let ghost g = |e: ApiFileEntry|
        if is_offered_category(file_of(e).category) {
            Some(file_of(e))
        } else {
            None
        };
    let mut files: Vec<NexusModFile> = Vec::new();
    let mut keys: Vec<SortKey> = Vec::new();
    let n = entries.len();
    let mut i: usize = 0;
    assert(entries@.take(0).filter_map(g) =~= Seq::<ModFileView>::empty());
    while i < n
        invariant
            n == entries@.len(),
            i <= n,
            g == (|e: ApiFileEntry|
                if is_offered_category(file_of(e).category) {
                    Some(file_of(e))
                } else {
                    None
                }),
            file_views(files@) == entries@.take(i as int).filter_map(g),
            keys@.len() == files@.len(),
            forall|j: int| 0 <= j < files@.len() ==> #[trigger] keys@[j]@ == file_order_key(files@[j]@),
        decreases n - i,
    {
        proof {
            entries@.lemma_filter_map_take_succ(g, i as int);
        }
        let e = &entries[i];
        let f = NexusModFile {
            file_id: e.file_id,
            name: string_or(&e.name, ""),
            version: string_or(&e.version, ""),
            size_kb: match e.size_kb {
                Some(k) => k,
                None => 0,
            },
            category: string_or(&e.category_name, "MAIN"),
        };
        proof {
            reveal_strlit("");
            assert(""@ =~= Seq::<char>::empty());
        }
        assert(f.name@ == file_of(entries@[i as int]).name);
        assert(f.version@ == file_of(entries@[i as int]).version);
        assert(f.category@ == file_of(entries@[i as int]).category);
        assert(f@ == file_of(entries@[i as int]));
        let (offered, rank) = category_info(&f.category);
        let ghost before = file_views(files@);
        if offered {
            keys.push(SortKey { major: rank, minor: u64::MAX - f.file_id, text: Vec::new() });
            files.push(f);
            assert(file_views(files@) =~= before.push(files@.last()@));
        }
        assert(file_views(files@) =~= entries@.take(i as int + 1).filter_map(g));
        i = i + 1;
    }
    assert(entries@.take(n as int) =~= entries@);
    let ghost offered = files@;
    let ghost kf = |f: NexusModFile| file_order_key(f@);
    let sorted = sort_stable(files, keys, Ghost(kf));
    proof {
        let fv = |f: NexusModFile| f@;
        let kv = |v: ModFileView| file_order_key(v);
        assert(kf == (|x: NexusModFile| kv(fv(x))));
        lemma_stably_sorted_map(sorted@, offered, fv, kv);
        assert(file_views(offered) == offered_files(entries@));
    }
    let ghost sv = file_views(sorted@);
    let mut out: Vec<NexusModFile> = Vec::new();
    let mut seen_main = false;
    let mut seen_update = false;
    let m = sorted.len();
    let mut k: usize = 0;
    let mut sorted = sorted;
    assert(sv.take(0) =~= Seq::<ModFileView>::empty());
    while k < m
        invariant
            m == sv.len(),
            sorted@.len() == m - k,
            forall|j: int| 0 <= j < m - k ==> #[trigger] sorted@[j]@ == sv[k + j],
            k <= m,
            file_views(out@) == latest_files(sv.take(k as int)),
            seen_main == exists|j: int| 0 <= j < k && category_rank(#[trigger] sv[j].category) == 0,
            seen_update == exists|j: int|
                0 <= j < k && category_rank(#[trigger] sv[j].category) == 1,
        decreases m - k,
    {
        let f = sorted.remove(0);
        assert(f@ == sv[k as int]);
        let (_, rank) = category_info(&f.category);
        let ghost t = sv.take(k as int + 1);
        assert(t.drop_last() =~= sv.take(k as int));
        assert(t.last() == sv[k as int]);
        assert forall|j: int| 0 <= j < t.len() - 1 implies #[trigger] t[j] == sv[j] by {}
        let keep = if rank == 0 {
            !seen_main
        } else if rank == 1 {
            !seen_update
        } else {
            true
        };
        proof {
            if rank != 2 {
                if exists|j: int| 0 <= j < k && category_rank(#[trigger] sv[j].category) == rank {
                    let j = choose|j: int| 0 <= j < k && category_rank(#[trigger] sv[j].category) == rank;
                    assert(category_rank(t[j].category) == rank);
                }
                if exists|j: int| 0 <= j < t.len() - 1 && category_rank(#[trigger] t[j].category) == rank {
                    let j = choose|j: int| 0 <= j < t.len() - 1 && category_rank(#[trigger] t[j].category) == rank;
                    assert(category_rank(sv[j].category) == rank);
                }
            }
        }
        if rank == 0 {
            seen_main = true;
        } else if rank == 1 {
            seen_update = true;
        }
        let ghost before = file_views(out@);
        if keep {
            out.push(f);
            assert(file_views(out@) =~= before.push(sv[k as int]));
        }
        assert(file_views(out@) == latest_files(t));
        assert forall|j: int| 0 <= j < m - k - 1 implies #[trigger] sorted@[j]@ == sv[k + 1 + j] by {}
        k = k + 1;
    }
    assert(sv.take(m as int) =~= sv);
    out
}

// ── API client ────────────────────────────────────────────────────────

/// Declares reqwest's header value type, which the library hands on without reading it.
#[verifier::external_type_specification]
#[verifier::external_body]
pub struct ExHeaderValue(reqwest::header::HeaderValue);

/// A byte that a header value may hold: visible ASCII, every byte from 128 up, and tab.
pub open spec fn header_byte_ok(b: u8) -> bool {
    (b >= 32 && b != 127) || b == 9
}

/// Every byte of the text's UTF-8 form may stand in a header value.
pub open spec fn header_text_ok(s: Seq<char>) -> bool {
    forall|i: int| 0 <= i < encode_utf8(s).len() ==> header_byte_ok(#[trigger] encode_utf8(s)[i])
}

/// The bytes that a header value holds (what `HeaderValue::as_bytes` gives).
pub uninterp spec fn header_bytes(h: reqwest::header::HeaderValue) -> Seq<u8>;

/// Calls `reqwest::header::HeaderValue::from_str` (the `http` crate's), which accepts
/// the text exactly when each of its bytes passes `http`'s `is_valid` check, and then
/// holds a copy of the text's bytes; the contract claims both.
#[verifier::external_body]
fn header_value(text: &str) -> (r: Option<reqwest::header::HeaderValue>)
    ensures
        r is Some <==> header_text_ok(text@),
        r matches Some(h) ==> header_bytes(h) == encode_utf8(text@),
{
    reqwest::header::HeaderValue::from_str(text).ok()
}

/// The `apikey` header that every API request carries: refused when the key holds a
/// character that a header cannot carry.
pub fn api_key_header(api_key: &str) -> (r: Result<reqwest::header::HeaderValue, String>)
    ensures
        r is Ok <==> header_text_ok(api_key@),
        r matches Ok(h) ==> header_bytes(h) == encode_utf8(api_key@),
        r matches Err(e) ==> e@ == "Invalid API key characters"@,
{
    match header_value(api_key) {
        Some(h) => Ok(h),
        None => Err(owned("Invalid API key characters")),
    }
}

// ── API endpoints ─────────────────────────────────────────────────────

/// The base of the NexusMods REST API.
pub open spec fn api_base() -> Seq<char> {
    "https://api.nexusmods.com/v1"@
}

/// `{base}/games/{game}/mods/{mod}`, the stem of the per-mod endpoints.
pub open spec fn mod_endpoint(r: ModRefView) -> Seq<char> {
    api_base() + "/games/"@ + r.game_domain + "/mods/"@ + decimal(r.mod_id as nat)
}

fn mod_endpoint_exec(r: &ParsedModRef) -> (s: String)
    ensures
        s@ == mod_endpoint(r@),
{
    let mut s = owned("https://api.nexusmods.com/v1");
    append_str(&mut s, "/games/");
    append_str(&mut s, r.game_domain.as_str());
    append_str(&mut s, "/mods/");
    let id = decimal_string(r.mod_id);
    append_str(&mut s, id.as_str());
    s
}

/// The endpoint of a mod's information.
pub fn mod_info_url(r: &ParsedModRef) -> (s: String)
    ensures
        s@ == mod_endpoint(r@) + ".json"@,
{
    let mut s = mod_endpoint_exec(r);
    append_str(&mut s, ".json");
    s
}

/// The endpoint of a mod's file list.
pub fn mod_files_url(r: &ParsedModRef) -> (s: String)
    ensures
        s@ == mod_endpoint(r@) + "/files.json"@,
{
    let mut s = mod_endpoint_exec(r);
    append_str(&mut s, "/files.json");
    s
}

/// The endpoint of a file's download links; the NXM key and expiry are appended when
/// the reference carries both (the user id is not sent).
pub open spec fn download_link_endpoint(r: ModRefView, file_id: u64) -> Seq<char> {
    let url = mod_endpoint(r) + "/files/"@ + decimal(file_id as nat) + "/download_link.json"@;
    match (r.nxm_key, r.nxm_expires) {
        (Some(key), Some(expires)) => url + "?key="@ + key + "&expires="@ + decimal(expires as nat),
        _ => url,
    }
}

/// The endpoint of a file's download links.
pub fn download_link_url(r: &ParsedModRef, file_id: u64) -> (s: String)
    ensures
        s@ == download_link_endpoint(r@, file_id),
{
    let mut s = mod_endpoint_exec(r);
    append_str(&mut s, "/files/");
    let f = decimal_string(file_id);
    append_str(&mut s, f.as_str());
    append_str(&mut s, "/download_link.json");
    match (&r.nxm_key, r.nxm_expires) {
        (Some(key), Some(expires)) => {
            append_str(&mut s, "?key=");
            append_str(&mut s, key.as_str());
            append_str(&mut s, "&expires=");
            let e = decimal_string(expires);
            append_str(&mut s, e.as_str());
        },
        _ => {},
    }
    s
}

/// The endpoint of a game's information.
pub fn game_info_url(domain: &str) -> (s: String)
    ensures
        s@ == api_base() + "/games/"@ + domain@ + ".json"@,
{
    let mut s = owned("https://api.nexusmods.com/v1");
    append_str(&mut s, "/games/");
    append_str(&mut s, domain);
    append_str(&mut s, ".json");
    s
}

/// The web page of a mod.
pub fn mod_page_url(domain: &str, mod_id: u64) -> (s: String)
    ensures
        s@ == "https://www.nexusmods.com/"@ + domain@ + "/mods/"@ + decimal(mod_id as nat),
{
    let mut s = owned("https://www.nexusmods.com/");
    append_str(&mut s, domain);
    append_str(&mut s, "/mods/");
    let d = decimal_string(mod_id);
    append_str(&mut s, d.as_str());
    s
}

/// The error that a download-link reply with a non-success status gives; none for 2xx.
/// `status_text` is the status as it is displayed, such as `404 Not Found`.
pub open spec fn download_link_failure(status: u16, status_text: Seq<char>, body: Seq<char>) -> Option<
    Seq<char>,
> {
    if 200 <= status <= 299 {
        None
    } else if status == 403 {
        Some("Download links require a NexusMods Premium account or a valid NXM key."@)
    } else if status == 400 {
        Some(
            "NexusMods rejected the download key (HTTP 400): "@ + body
                + "\nMake sure you are logged into nexusmods.com in your browser as the same account whose API key is saved in Settings."@,
        )
    } else {
        Some("NexusMods API error: HTTP "@ + status_text + ": "@ + body)
    }
}

/// The error for a download-link reply, if its status is not a success.
pub fn download_link_error(status: u16, status_text: &str, body: &str) -> (r: Option<String>)
    ensures
        opt_view(r) == download_link_failure(status, status_text@, body@),
{
    if 200 <= status && status <= 299 {
        None
    } else if status == 403 {
        Some(owned("Download links require a NexusMods Premium account or a valid NXM key."))
    } else if status == 400 {
        let mut s = owned("NexusMods rejected the download key (HTTP 400): ");
        append_str(&mut s, body);
        append_str(
            &mut s,
            "\nMake sure you are logged into nexusmods.com in your browser as the same account whose API key is saved in Settings.",
        );
        Some(s)
    } else {
        let mut s = owned("NexusMods API error: HTTP ");
        append_str(&mut s, status_text);
        append_str(&mut s, ": ");
        append_str(&mut s, body);
        Some(s)
    }
}

/// The first link of a reply, or the error `missing` when there is none.
pub open spec fn first_link(uris: Seq<Seq<char>>, missing: Seq<char>) -> Result<Seq<char>, Seq<char>> {
    if uris.len() > 0 {
        Ok(uris[0])
    } else {
        Err(missing)
    }
}

fn first_or(uris: &Vec<String>, missing: &str) -> (r: Result<String, String>)
    ensures
        r matches Ok(u) ==> first_link(string_views(uris@), missing@) == Ok::<Seq<char>, Seq<char>>(u@),
        r matches Err(e) ==> first_link(string_views(uris@), missing@) == Err::<Seq<char>, Seq<char>>(
            e@,
        ),
{
    if uris.len() > 0 {
        Ok(owned(uris[0].as_str()))
    } else {
        Err(owned(missing))
    }
}

/// The download URL of a file: the first link of the download-link reply.
pub fn first_download_link(uris: &Vec<String>) -> (r: Result<String, String>)
    ensures
        r matches Ok(u) ==> first_link(string_views(uris@), "No download links returned"@) == Ok::<
            Seq<char>,
            Seq<char>,
        >(u@),
        r matches Err(e) ==> first_link(string_views(uris@), "No download links returned"@) == Err::<
            Seq<char>,
            Seq<char>,
        >(e@),
{
    first_or(uris, "No download links returned")
}

/// The CDN URL of a collection archive: the first link of the bundle reply.
pub fn first_cdn_link(uris: &Vec<String>) -> (r: Result<String, String>)
    ensures
        r matches Ok(u) ==> first_link(
            string_views(uris@),
            "No CDN download links returned for collection"@,
        ) == Ok::<Seq<char>, Seq<char>>(u@),
        r matches Err(e) ==> first_link(
            string_views(uris@),
            "No CDN download links returned for collection"@,
        ) == Err::<Seq<char>, Seq<char>>(e@),
{
    first_or(uris, "No CDN download links returned for collection")
}

// ── Download progress ─────────────────────────────────────────────────

/// A progress report of a download.
pub struct DownloadProgress {
    pub pct: u8,
    pub downloaded_kb: u64,
    pub total_kb: u64,
}

/// The progress to report after `downloaded` of `total` bytes; none when the total
/// size is unknown (zero).
pub fn download_progress(downloaded: u64, total: u64) -> (r: Option<DownloadProgress>)
    requires
        total > 0 ==> downloaded * 100 <= u64::MAX,
    ensures
        total == 0 ==> r is None,
        total > 0 ==> (r matches Some(p) && p.pct as int == (if downloaded * 100 / total as int > 100 {
            100
        } else {
            downloaded * 100 / total as int
        }) && p.downloaded_kb == downloaded / 1024 && p.total_kb == total / 1024),
{
    if total == 0 {
        return None;
    }
    let scaled = downloaded * 100 / total;
    let pct: u8 = if scaled > 100 {
        100
    } else {
        scaled as u8
    };
    Some(DownloadProgress { pct, downloaded_kb: downloaded / 1024, total_kb: total / 1024 })
}

// ── Collections ───────────────────────────────────────────────────────

/// The collection fields of the GraphQL reply.
pub struct GqlCollection {
    pub name: Option<String>,
    pub summary: Option<String>,
    pub slug: Option<String>,
}

/// The revision of the GraphQL reply.
pub struct GqlRevision {
    pub collection: Option<GqlCollection>,
    pub download_link: Option<String>,
}

/// The GraphQL reply for a collection revision: the revision, if any, and the
/// messages of the errors, if the reply had an error list.
pub struct GqlReply {
    pub revision: Option<GqlRevision>,
    pub errors: Option<Vec<String>>,
}

/// The source of a mod in a collection bundle.
pub struct BundleModSource {
    pub mod_id: Option<u64>,
    pub file_id: Option<u64>,
}

/// One mod of a collection bundle (`collection.json`).
pub struct BundleMod {
    pub name: Option<String>,
    pub version: Option<String>,
    pub optional: Option<bool>,
    pub domain_name: Option<String>,
    pub source: Option<BundleModSource>,
}

/// The abstract value of the collection fields: name, summary, slug.
pub open spec fn gql_collection_view(c: Option<GqlCollection>) -> (
    Option<Seq<char>>,
    Option<Seq<char>>,
    Option<Seq<char>>,
) {
    match c {
        Some(c) => (opt_view(c.name), opt_view(c.summary), opt_view(c.slug)),
        None => (None, None, None),
    }
}

/// The bundle URL of a GraphQL reply (made absolute when it is a path), with the
/// collection fields; or the reply's error.
pub open spec fn bundle_link(reply: GqlReply) -> Result<
    ((Option<Seq<char>>, Option<Seq<char>>, Option<Seq<char>>), Seq<char>),
    Seq<char>,
> {
    let errors = match reply.errors {
        Some(e) => string_views(e@),
        None => Seq::empty(),
    };
    if errors.len() > 0 {
        Err("NexusMods collection error: "@ + join(errors, "; "@))
    } else {
        match reply.revision {
            None => Err("Collection revision not found"@),
            Some(rev) => match rev.download_link {
                None => Err(
                    "No bundle download link returned — collection may require NexusMods Premium"@,
                ),
                Some(link) => {
                    let url = if starts_with(link@, "/"@) {
                        "https://api.nexusmods.com"@ + link@
                    } else {
                        link@
                    };
                    Ok((gql_collection_view(rev.collection), url))
                },
            },
        }
    }
}

/// Reads the GraphQL reply for a collection revision: the collection fields and the
/// absolute URL of its bundle, or the error the reply stands for.
pub fn collection_bundle_link(reply: GqlReply) -> (r: Result<(GqlCollection, String), String>)
    ensures
        r matches Ok((c, url)) ==> bundle_link(reply) == Ok::<_, Seq<char>>(
            (gql_collection_view(Some(c)), url@),
        ),
        r matches Err(e) ==> bundle_link(reply) == Err::<
            ((Option<Seq<char>>, Option<Seq<char>>, Option<Seq<char>>), Seq<char>),
            Seq<char>,
        >(e@),
{
    let ghost old_reply = reply;
    match &reply.errors {
        Some(errs) => {
            if errs.len() > 0 {
                let mut msg = owned("NexusMods collection error: ");
                let joined = join_strings(errs, "; ");
                append_str(&mut msg, joined.as_str());
                return Err(msg);
            }
        },
        None => {},
    }
    assert(reply.errors matches Some(e) ==> string_views(e@).len() == 0);
    match reply.revision {
        None => Err(owned("Collection revision not found")),
        Some(rev) => {
            let col = match rev.collection {
                Some(c) => c,
                None => GqlCollection { name: None, summary: None, slug: None },
            };
            match rev.download_link {
                None => Err(
                    owned(
                        "No bundle download link returned — collection may require NexusMods Premium",
                    ),
                ),
                Some(link) => {
                    let lc = chars_of(link.as_str());
                    let url = if has_prefix_str(lc.as_slice(), "/") {
                        let mut u = owned("https://api.nexusmods.com");
                        append_str(&mut u, link.as_str());
                        u
                    } else {
                        link
                    };
                    Ok((col, url))
                },
            }
        },
    }
}

/// The temporary file name of a downloaded mod archive.
pub fn mod_archive_name(file_id: u64) -> (s: String)
    ensures
        s@ == "lmm_mod_"@ + decimal(file_id as nat) + ".tmp"@,
{
    let mut s = owned("lmm_mod_");
    let d = decimal_string(file_id);
    append_str(&mut s, d.as_str());
    append_str(&mut s, ".tmp");
    s
}

/// The temporary file name of a collection archive.
pub fn collection_archive_name(r: &ParsedCollectionRef) -> (s: String)
    ensures
        s@ == "lmm_collection_"@ + r.slug@ + "_"@ + decimal(r.revision as nat) + ".7z"@,
{
    let mut s = owned("lmm_collection_");
    append_str(&mut s, r.slug.as_str());
    append_str(&mut s, "_");
    let d = decimal_string(r.revision as u64);
    append_str(&mut s, d.as_str());
    append_str(&mut s, ".7z");
    s
}

/// Whether an archive entry is the collection manifest.
pub fn is_collection_manifest(entry_name: &str) -> (r: bool)
    ensures
        r == ends_with(entry_name@, "collection.json"@),
{
    has_suffix_str(chars_of(entry_name).as_slice(), "collection.json")
}

/// The collection manifest's text, or the error for an archive without one.
pub fn collection_manifest(found: Option<String>) -> (r: Result<String, String>)
    ensures
        r matches Ok(t) ==> found matches Some(f) && t@ == f@,
        r matches Err(e) ==> found is None && e@ == "collection.json not found inside archive"@,
        found is Some <==> r is Ok,
{
    match found {
        Some(t) => Ok(t),
        None => Err(owned("collection.json not found inside archive")),
    }
}

/// The collection mod that a bundle entry stands for: one with a source that names
/// both a mod and a file; absent texts are empty, the game defaults to the collection's.
pub open spec fn collection_mod_of(game_domain: Seq<char>, m: BundleMod) -> Option<CollectionModView> {
    match m.source {
        Some(src) => match (src.mod_id, src.file_id) {
            (Some(mod_id), Some(file_id)) => Some(
                CollectionModView {
                    mod_id,
                    file_id,
                    name: or_default(m.name, Seq::empty()),
                    version: or_default(m.version, Seq::empty()),
                    game_domain: or_default(m.domain_name, game_domain),
                    optional: match m.optional {
                        Some(b) => b,
                        None => false,
                    },
                },
            ),
            _ => None,
        },
        None => None,
    }
}

/// The views of a sequence of collection mods.
pub open spec fn collection_mod_views(s: Seq<NexusCollectionMod>) -> Seq<CollectionModView> {
    s.map_values(|m: NexusCollectionMod| m@)
}

/// The collection and its mods, from the reference, the GraphQL collection fields and
/// the mods of the bundle; absent name and slug fall back to the reference's slug.
pub fn collection_from_bundle(
    r: &ParsedCollectionRef,
    col: &GqlCollection,
    mods: &Vec<BundleMod>,
) -> (res: (NexusCollectionInfo, Vec<NexusCollectionMod>))
    ensures
        collection_mod_views(res.1@) == mods@.filter_map(
            |m: BundleMod| collection_mod_of(r.game_domain@, m),
        ),
        res.0.name@ == or_default(col.name, r.slug@),
        res.0.summary@ == or_default(col.summary, Seq::empty()),
        res.0.slug@ == or_default(col.slug, r.slug@),
        res.0.revision == r.revision,
        res.0.mod_count == res.1@.len(),
        res.0.game_domain@ == r.game_domain@,
{
    let ghost f = |m: BundleMod| collection_mod_of(r.game_domain@, m);
    let mut out: Vec<NexusCollectionMod> = Vec::new();
    let n = mods.len();
    let mut i: usize = 0;
    assert(mods@.take(0).filter_map(f) =~= Seq::<CollectionModView>::empty());
    proof {
        reveal_strlit("");
        assert(""@ =~= Seq::<char>::empty());
    }
    while i < n
        invariant
            n == mods@.len(),
            i <= n,
            ""@ == Seq::<char>::empty(),
            f == (|m: BundleMod| collection_mod_of(r.game_domain@, m)),
            collection_mod_views(out@) == mods@.take(i as int).filter_map(f),
        decreases n - i,
    {
        proof {
            mods@.lemma_filter_map_take_succ(f, i as int);
        }
        let m = &mods[i];
        let ghost before = collection_mod_views(out@);
        match &m.source {
            Some(src) => match (src.mod_id, src.file_id) {
                (Some(mod_id), Some(file_id)) => {
                    let cm = NexusCollectionMod {
                        mod_id,
                        file_id,
                        name: string_or(&m.name, ""),
                        version: string_or(&m.version, ""),
                        game_domain: string_or(&m.domain_name, r.game_domain.as_str()),
                        optional: match m.optional {
                            Some(b) => b,
                            None => false,
                        },
                    };
                    assert(cm@ == collection_mod_of(r.game_domain@, mods@[i as int])->0);
                    out.push(cm);
                    assert(collection_mod_views(out@) =~= before.push(out@.last()@));
                },
                _ => {},
            },
            None => {},
        }
        assert(collection_mod_views(out@) =~= mods@.take(i as int + 1).filter_map(f));
        i = i + 1;
    }
    assert(mods@.take(n as int) =~= mods@);
    let info = NexusCollectionInfo {
        name: string_or(&col.name, r.slug.as_str()),
        summary: string_or(&col.summary, ""),
        slug: string_or(&col.slug, r.slug.as_str()),
        revision: r.revision,
        mod_count: out.len(),
        game_domain: owned(r.game_domain.as_str()),
    };
    (info, out)
}

} // verus!
