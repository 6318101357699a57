use vstd::prelude::*;

use crate::codec::{base64_encode, base64_encoded_len, base64_standard_encoding};
use crate::modding::cyberpunk::entry_exists;
use crate::modding::FsEntry;
use crate::nexusmods::parse_u64;
use crate::sorting::{lemma_stably_sorted_map, sort_stable, stably_sorted, KeyView, SortKey};
use crate::text::{
    append_str, chars_eq_str, chars_of, ends_with, first_occurrences, has_prefix, has_prefix_str, has_suffix_str,
    join_path, lowercase, owned, parse_uint, parse_unsigned, path_join, split_char, split_on,
    starts_with, string_of, string_views, sub_chars, to_lowercase, trim, trim_chars, views,
    without_suffix, without_suffix_chars,
};

verus! {

// ── VDF helpers ──────────────────────────────────────────────────────

/// The lines of a text, as `str::lines` yields them: split at `\n`, a `\r` before the
/// `\n` removed, and no empty line after a final `\n`.
pub open spec fn lines(s: Seq<char>) -> Seq<Seq<char>> {
    let p = split_char(s, '\n');
    let body = p.drop_last().map_values(|l: Seq<char>| without_suffix(l, "\r"@));
    if p.last().len() == 0 {
        body
    } else {
        body.push(p.last())
    }
}

/// The quoted value of a `"key" "value"` line of a VDF file, if the line has that key.
pub open spec fn vdf_line_value(line: Seq<char>, key: Seq<char>) -> Option<Seq<char>> {
    let needle = "\""@ + key + "\""@;
    let t = trim(line);
    if starts_with(t, needle) {
        let rest = trim(t.skip(needle.len() as int));
        if rest.len() >= 2 && rest[0] == '"' && rest.last() == '"' {
            Some(rest.subrange(1, rest.len() - 1))
        } else {
            None
        }
    } else {
        None
    }
}

/// Every value of `key` in a VDF text, in line order.
pub open spec fn vdf_values(content: Seq<char>, key: Seq<char>) -> Seq<Seq<char>> {
    lines(content).filter_map(|l: Seq<char>| vdf_line_value(l, key))
}

/// The first value of `key` in a VDF text.
pub open spec fn vdf_first(content: Seq<char>, key: Seq<char>) -> Option<Seq<char>> {
    let v = vdf_values(content, key);
    if v.len() > 0 {
        Some(v[0])
    } else {
        None
    }
}

/// The lines of a text (`str::lines`).
fn text_lines(s: &[char]) -> (r: Vec<Vec<char>>)
    ensures
        views(r@) == lines(s@),
{
    let p = split_on(s, '\n');
    proof {
        crate::text::lemma_split_any_nonempty(s@, seq!['\n']);
    }
    let ghost pv = views(p@);
    let n = p.len();
    let mut out: Vec<Vec<char>> = Vec::new();
    let mut i: usize = 0;
    let ghost f = |l: Seq<char>| without_suffix(l, "\r"@);
    while i + 1 < n
        invariant
            n == p@.len(),
            n >= 1,
            pv == views(p@),
            i < n,
            f == (|l: Seq<char>| without_suffix(l, "\r"@)),
            views(out@) == pv.take(i as int).map_values(f),
        decreases n - i,
    {
        let l = without_suffix_chars(p[i].as_slice(), "\r");
        let ghost before = views(out@);
        out.push(l);
        assert(views(out@) =~= before.push(f(pv[i as int])));
        assert(pv.take(i as int + 1).map_values(f) =~= pv.take(i as int).map_values(f).push(
            f(pv[i as int]),
        ));
        i = i + 1;
    }
    assert(pv.take(n - 1) =~= pv.drop_last());
    if p[n - 1].len() > 0 {
        let last = sub_chars(p[n - 1].as_slice(), 0, p[n - 1].len());
        let ghost before = views(out@);
        assert(last@ =~= pv.last());
        out.push(last);
        assert(views(out@) =~= before.push(pv.last()));
    }
    out
}

/// The value of a `"key" "value"` line, if the line has the key.
fn vdf_line_value_exec(line: &[char], needle: &[char]) -> (r: Option<Vec<char>>)
    ensures
        forall|key: Seq<char>|
            needle@ == "\""@ + key + "\""@ ==> (match r {
                Some(v) => vdf_line_value(line@, key) == Some(v@),
                None => vdf_line_value(line@, key) is None,
            }),
{
    let t = trim_chars(line);
    if !has_prefix(t.as_slice(), needle) {
        return None;
    }
    let after = sub_chars(t.as_slice(), needle.len(), t.len());
    let rest = trim_chars(after.as_slice());
    let m = rest.len();
    if m >= 2 && rest[0] == '"' && rest[m - 1] == '"' {
        Some(sub_chars(rest.as_slice(), 1, m - 1))
    } else {
        None
    }
}

/// Every value of `key` in a VDF text, in line order.
pub fn vdf_get(content: &str, key: &str) -> (r: Vec<String>)
    ensures
        string_views(r@) == vdf_values(content@, key@),
{
    let mut needle = owned("\"");
    append_str(&mut needle, key);
    append_str(&mut needle, "\"");
    let nc = chars_of(needle.as_str());
    let ls = text_lines(chars_of(content).as_slice());
    let ghost lv = views(ls@);
    let ghost f = |l: Seq<char>| vdf_line_value(l, key@);
    let mut out: Vec<String> = Vec::new();
    let n = ls.len();
    let mut i: usize = 0;
    assert(lv.take(0).filter_map(f) =~= Seq::<Seq<char>>::empty());
    while i < n
        invariant
            n == ls@.len(),
            lv == views(ls@),
            lv == lines(content@),
            nc@ == "\""@ + key@ + "\""@,
            f == (|l: Seq<char>| vdf_line_value(l, key@)),
            i <= n,
            string_views(out@) == lv.take(i as int).filter_map(f),
        decreases n - i,
    {
        proof {
            lv.lemma_filter_map_take_succ(f, i as int);
        }
        let ghost before = string_views(out@);
        match vdf_line_value_exec(ls[i].as_slice(), nc.as_slice()) {
            Some(v) => {
                out.push(string_of(v.as_slice()));
                assert(string_views(out@) =~= before.push(v@));
            },
            None => {},
        }
        assert(string_views(out@) =~= lv.take(i as int + 1).filter_map(f));
        i = i + 1;
    }
    assert(lv.take(n as int) =~= lv);
    out
}

/// The first value of `key` in a VDF text.
pub fn vdf_get_first(content: &str, key: &str) -> (r: Option<String>)
    ensures
        crate::text::opt_view(r) == vdf_first(content@, key@),
{
    let mut all = vdf_get(content, key);
    if all.len() > 0 {
        assert(string_views(all@)[0] == all@[0]@);
        Some(all.remove(0))
    } else {
        None
    }
}

// ── Game filtering ───────────────────────────────────────────────────

/// Names of Steam tools and runtimes (matched as prefixes).
pub open spec fn excluded_prefixes() -> Seq<Seq<char>> {
    seq![
        "Proton "@,
        "Steam Linux Runtime"@,
        "Steamworks Common"@,
        "SteamVR"@,
        "Steam OST"@,
        "Proton Experimental"@,
        "Proton Hotfix"@,
        "Proton BattlEye Runtime"@,
        "Proton EasyAntiCheat Runtime"@,
    ]
}

/// An entry that is an actual game rather than a Steam tool or runtime.
pub open spec fn real_game(name: Seq<char>) -> bool {
    !exists|i: int| 0 <= i < excluded_prefixes().len() && starts_with(name, #[trigger] excluded_prefixes()[i])
}

/// Returns true if the entry is an actual game rather than a Steam tool/runtime.
pub fn is_real_game(name: &str) -> (r: bool)
    ensures
        r == real_game(name@),
{
    let nc = chars_of(name);
    let s = nc.as_slice();
    let hit = has_prefix_str(s, "Proton ") || has_prefix_str(s, "Steam Linux Runtime")
        || has_prefix_str(s, "Steamworks Common") || has_prefix_str(s, "SteamVR") || has_prefix_str(
        s,
        "Steam OST",
    ) || has_prefix_str(s, "Proton Experimental") || has_prefix_str(s, "Proton Hotfix")
        || has_prefix_str(s, "Proton BattlEye Runtime") || has_prefix_str(
        s,
        "Proton EasyAntiCheat Runtime",
    );
    let ghost e = excluded_prefixes();
    proof {
        if hit {
            if starts_with(name@, "Proton "@) {
                assert(e[0] == "Proton "@);
            } else if starts_with(name@, "Steam Linux Runtime"@) {
                assert(e[1] == "Steam Linux Runtime"@);
            } else if starts_with(name@, "Steamworks Common"@) {
                assert(e[2] == "Steamworks Common"@);
            } else if starts_with(name@, "SteamVR"@) {
                assert(e[3] == "SteamVR"@);
            } else if starts_with(name@, "Steam OST"@) {
                assert(e[4] == "Steam OST"@);
            } else if starts_with(name@, "Proton Experimental"@) {
                assert(e[5] == "Proton Experimental"@);
            } else if starts_with(name@, "Proton Hotfix"@) {
                assert(e[6] == "Proton Hotfix"@);
            } else if starts_with(name@, "Proton BattlEye Runtime"@) {
                assert(e[7] == "Proton BattlEye Runtime"@);
            } else {
                assert(e[8] == "Proton EasyAntiCheat Runtime"@);
            }
        } else {
            assert forall|i: int| 0 <= i < e.len() implies !starts_with(name@, #[trigger] e[i]) by {
                if i == 0 {
                } else if i == 1 {
                } else if i == 2 {
                } else if i == 3 {
                } else if i == 4 {
                } else if i == 5 {
                } else if i == 6 {
                } else if i == 7 {
                } else {
                }
            }
        }
    }
    !hit
}

// ── Games ────────────────────────────────────────────────────────────

/// An installed Steam game.
pub struct Game {
    pub app_id: String,
    pub name: String,
    pub install_dir: String,
    pub library_path: String,
    pub size_on_disk: u64,
    pub cover_path: Option<String>,
}

/// The abstract value of a [`Game`].
pub struct GameView {
    pub app_id: Seq<char>,
    pub name: Seq<char>,
    pub install_dir: Seq<char>,
    pub library_path: Seq<char>,
    pub size_on_disk: u64,
    pub cover_path: Option<Seq<char>>,
}

impl View for Game {
    type V = GameView;

    open spec fn view(&self) -> GameView {
        GameView {
            app_id: self.app_id@,
            name: self.name@,
            install_dir: self.install_dir@,
            library_path: self.library_path@,
            size_on_disk: self.size_on_disk,
            cover_path: crate::text::opt_view(self.cover_path),
        }
    }
}

/// A file of a Steam library's `steamapps` directory that describes an app.
pub open spec fn app_manifest_file(name: Seq<char>) -> bool {
    starts_with(name, "appmanifest_"@) && ends_with(name, ".acf"@)
}

/// Whether a file name is that of an app manifest (`appmanifest_*.acf`).
pub fn is_app_manifest_file(name: &str) -> (r: bool)
    ensures
        r == app_manifest_file(name@),
{
    let nc = chars_of(name);
    has_prefix_str(nc.as_slice(), "appmanifest_") && has_suffix_str(nc.as_slice(), ".acf")
}

/// The game an app manifest describes: fully installed (`StateFlags` is `4`), with a
/// non-empty name that is not a Steam tool; absent fields are empty, an unreadable size
/// is zero. The cover is left for the caller to find.
pub open spec fn game_of_manifest(content: Seq<char>, library_path: Seq<char>) -> Option<GameView> {
    if vdf_first(content, "StateFlags"@) != Some("4"@) {
        None
    } else {
        match vdf_first(content, "name"@) {
            Some(name) => if name.len() > 0 && real_game(name) {
                Some(
                    GameView {
                        app_id: match vdf_first(content, "appid"@) {
                            Some(a) => a,
                            None => Seq::empty(),
                        },
                        name,
                        install_dir: match vdf_first(content, "installdir"@) {
                            Some(d) => d,
                            None => Seq::empty(),
                        },
                        library_path,
                        size_on_disk: match vdf_first(content, "SizeOnDisk"@) {
                            Some(s) => match parse_u64(s) {
                                Some(v) => v,
                                None => 0,
                            },
                            None => 0,
                        },
                        cover_path: None,
                    },
                )
            } else {
                None
            },
            None => None,
        }
    }
}

/// The game that an app manifest of the library at `library_path` describes, if any.
pub fn game_from_manifest(content: &str, library_path: &str) -> (r: Option<Game>)
    ensures
        match r {
            Some(g) => game_of_manifest(content@, library_path@) == Some(g@),
            None => game_of_manifest(content@, library_path@) is None,
        },
{
    proof {
        reveal_strlit("");
        assert(""@ =~= Seq::<char>::empty());
    }
    let state = vdf_get_first(content, "StateFlags");
    let is_installed = match &state {
        Some(s) => chars_eq_str(chars_of(s.as_str()).as_slice(), "4"),
        None => false,
    };
    if !is_installed {
        return None;
    }
    let name = match vdf_get_first(content, "name") {
        Some(n) => n,
        None => {
            return None;
        },
    };
    let name_chars = chars_of(name.as_str());
    if name_chars.len() == 0 || !is_real_game(name.as_str()) {
        return None;
    }
    let app_id = crate::text::string_or(&vdf_get_first(content, "appid"), "");
    let install_dir = crate::text::string_or(&vdf_get_first(content, "installdir"), "");
    let size_on_disk = match vdf_get_first(content, "SizeOnDisk") {
        Some(s) => match parse_uint(chars_of(s.as_str()).as_slice(), u64::MAX) {
            Some(v) => v,
            None => 0,
        },
        None => 0,
    };
    Some(
        Game {
            app_id,
            name,
            install_dir,
            library_path: owned(library_path),
            size_on_disk,
            cover_path: None,
        },
    )
}

/// Games are listed by lower-cased name.
pub open spec fn game_order_key(g: GameView) -> KeyView {
    (0u64, 0u64, lowercase(g.name))
}

/// The views of a sequence of games.
pub open spec fn game_views(s: Seq<Game>) -> Seq<GameView> {
    s.map_values(|g: Game| g@)
}

/// Sorts games by lower-cased name, stably.
pub fn sort_games(games: Vec<Game>) -> (r: Vec<Game>)
    ensures
        stably_sorted(game_views(r@), game_views(games@), |g: GameView| game_order_key(g)),
{
    let mut keys: Vec<SortKey> = Vec::new();
    let n = games.len();
    let mut i: usize = 0;
    while i < n
        invariant
            n == games@.len(),
            i <= n,
            keys@.len() == i,
            forall|j: int| 0 <= j < i ==> #[trigger] keys@[j]@ == game_order_key(games@[j]@),
        decreases n - i,
    {
        let lower = to_lowercase(games[i].name.as_str());
        keys.push(SortKey { major: 0, minor: 0, text: chars_of(lower.as_str()) });
        i = i + 1;
    }
    let ghost orig = games@;
    let ghost kf = |g: Game| game_order_key(g@);
    let sorted = sort_stable(games, keys, Ghost(kf));
    proof {
        let f = |g: Game| g@;
        let kv = |v: GameView| game_order_key(v);
        assert(kf == (|x: Game| kv(f(x))));
        lemma_stably_sorted_map(sorted@, orig, f, kv);
    }
    sorted
}

// ── Paths ────────────────────────────────────────────────────────────

/// Where the settings are stored, below the home directory.
pub fn settings_path(home: &str) -> (r: String)
    ensures
        r@ == path_join(home@, ".config/linux-mod-manager/settings.json"@),
{
    let j = join_path(
        chars_of(home).as_slice(),
        chars_of(".config/linux-mod-manager/settings.json").as_slice(),
    );
    string_of(j.as_slice())
}

/// The directories below the home directory where a Steam installation may live.
pub open spec fn steam_roots(home: Seq<char>) -> Seq<Seq<char>> {
    seq![
        home + "/.steam/steam"@,
        home + "/.steam/root"@,
        home + "/.local/share/Steam"@,
        home + "/.var/app/com.valvesoftware.Steam/data/Steam"@,
        home + "/snap/steam/common/.local/share/Steam"@,
    ]
}

fn home_path(home: &str, rest: &str) -> (r: String)
    ensures
        r@ == home@ + rest@,
{
    let mut s = owned(home);
    append_str(&mut s, rest);
    s
}

/// The candidate Steam roots for a home directory, in the order they are tried.
pub fn steam_root_candidates(home: &str) -> (r: Vec<String>)
    ensures
        string_views(r@) == steam_roots(home@),
{
    let mut v: Vec<String> = Vec::new();
    v.push(home_path(home, "/.steam/steam"));
    v.push(home_path(home, "/.steam/root"));
    v.push(home_path(home, "/.local/share/Steam"));
    v.push(home_path(home, "/.var/app/com.valvesoftware.Steam/data/Steam"));
    v.push(home_path(home, "/snap/steam/common/.local/share/Steam"));
    assert(string_views(v@) =~= steam_roots(home@));
    v
}

/// Keeps the first occurrence of every string, in order.
pub fn dedup_keep_first(items: Vec<String>) -> (r: Vec<String>)
    ensures
        string_views(r@) == first_occurrences(string_views(items@)),
{
    let ghost v = string_views(items@);
    let mut out: Vec<String> = Vec::new();
    let n = items.len();
    let mut i: usize = 0;
    assert(v.take(0) =~= Seq::<Seq<char>>::empty());
    while i < n
        invariant
            n == items@.len(),
            v == string_views(items@),
            i <= n,
            string_views(out@) == first_occurrences(v.take(i as int)),
        decreases n - i,
    {
        let ghost t = v.take(i as int + 1);
        assert(t.drop_last() =~= v.take(i as int));
        assert(t.last() == items@[i as int]@);
        let mut seen = false;
        let mut j: usize = 0;
        while j < i
            invariant
                n == items@.len(),
                v == string_views(items@),
                j <= i < n,
                seen == exists|k: int| 0 <= k < j && #[trigger] v[k] == v[i as int],
            decreases i - j,
        {
            proof {
                assert(v[j as int] == items@[j as int]@);
                assert(v[i as int] == items@[i as int]@);
            }
            if items[j] == items[i] {
                seen = true;
            }
            j = j + 1;
        }
        proof {
            if seen {
                let k = choose|k: int| 0 <= k < i && #[trigger] v[k] == v[i as int];
                assert(v.take(i as int)[k] == v[i as int]);
            }
            if v.take(i as int).contains(v[i as int]) {
                let k = choose|k: int| 0 <= k < i && #[trigger] v.take(i as int)[k] == v[i as int];
                assert(v[k] == v[i as int]);
            }
        }
        if !seen {
            let c = owned(items[i].as_str());
            let ghost before = string_views(out@);
            out.push(c);
            assert(string_views(out@) =~= before.push(v[i as int]));
        }
        i = i + 1;
    }
    assert(v.take(n as int) =~= v);
    out
}

/// The canonical paths of the candidates that exist, in order: `found` holds, for each
/// candidate, its canonical path when it exists and none when it does not.
pub open spec fn present_paths(found: Seq<Option<String>>) -> Seq<Seq<char>> {
    found.filter_map(|o: Option<String>| crate::text::opt_view(o))
}

/// The canonical paths of the candidates that exist, each once, in the order they were
/// first found (what a set of the paths seen so far lets through).
pub fn distinct_present(found: &Vec<Option<String>>) -> (r: Vec<String>)
    ensures
        string_views(r@) == first_occurrences(present_paths(found@)),
{
    let ghost f = |o: Option<String>| crate::text::opt_view(o);
    let mut all: Vec<String> = Vec::new();
    let n = found.len();
    let mut i: usize = 0;
    assert(found@.take(0).filter_map(f) =~= Seq::<Seq<char>>::empty());
    while i < n
        invariant
            n == found@.len(),
            i <= n,
            f == (|o: Option<String>| crate::text::opt_view(o)),
            string_views(all@) == found@.take(i as int).filter_map(f),
        decreases n - i,
    {
        proof {
            found@.lemma_filter_map_take_succ(f, i as int);
        }
        match &found[i] {
            Some(p) => {
                let ghost before = string_views(all@);
                all.push(owned(p.as_str()));
                assert(string_views(all@) =~= before.push(p@));
            },
            None => {},
        }
        i = i + 1;
    }
    assert(found@.take(n as int) =~= found@);
    dedup_keep_first(all)
}

// ── Cover art ────────────────────────────────────────────────────────

/// A child with the given name exists.
pub open spec fn has_existing_child(es: Seq<FsEntry>, name: Seq<char>) -> bool {
    exists|i: int| 0 <= i < es.len() && (#[trigger] es[i]).name@ == name && entry_exists(es[i])
}

/// The first subdirectory that holds the named file.
pub open spec fn first_subdir_with(es: Seq<FsEntry>, name: Seq<char>) -> Option<int>
    decreases es.len(),
{
    if es.len() == 0 {
        None
    } else {
        match first_subdir_with(es.drop_last(), name) {
            Some(i) => Some(i),
            None => if es.last().is_dir && has_existing_child(es.last().children@, name) {
                Some(es.len() - 1)
            } else {
                None
            },
        }
    }
}

/// The cover image below an app's cache directory, relative to it: the portrait cover or
/// the header in the directory itself, else the first subdirectory holding the portrait
/// cover, the capsule or the library header, in that order of preference.
pub open spec fn cover_choice(es: Seq<FsEntry>) -> Option<Seq<char>> {
    if has_existing_child(es, "library_600x900.jpg"@) {
        Some("library_600x900.jpg"@)
    } else if has_existing_child(es, "header.jpg"@) {
        Some("header.jpg"@)
    } else {
        match first_subdir_with(es, "library_600x900.jpg"@) {
            Some(i) => Some(es[i].name@ + "/"@ + "library_600x900.jpg"@),
            None => match first_subdir_with(es, "library_capsule.jpg"@) {
                Some(i) => Some(es[i].name@ + "/"@ + "library_capsule.jpg"@),
                None => match first_subdir_with(es, "library_header.jpg"@) {
                    Some(i) => Some(es[i].name@ + "/"@ + "library_header.jpg"@),
                    None => None,
                },
            },
        }
    }
}

fn has_existing_child_exec(es: &Vec<FsEntry>, name: &str) -> (r: bool)
    ensures
        r == has_existing_child(es@, name@),
{
    let nc = chars_of(name);
    let n = es.len();
    let mut i: usize = 0;
    while i < n
        invariant
            n == es@.len(),
            nc@ == name@,
            i <= n,
            forall|j: int| 0 <= j < i ==> !((#[trigger] es@[j]).name@ == name@ && entry_exists(es@[j])),
        decreases n - i,
    {
        let e = &es[i];
        if crate::text::chars_eq(chars_of(e.name.as_str()).as_slice(), nc.as_slice()) && e.exists {
            assert(es@[i as int].name@ == name@);
            return true;
        }
        i = i + 1;
    }
    false
}

fn first_subdir_with_exec(es: &Vec<FsEntry>, name: &str) -> (r: Option<usize>)
    ensures
        match r {
            Some(i) => first_subdir_with(es@, name@) == Some(i as int) && i < es@.len(),
            None => first_subdir_with(es@, name@) is None,
        },
{
    let n = es.len();
    let mut i: usize = 0;
    while i < n
        invariant
            n == es@.len(),
            i <= n,
            first_subdir_with(es@.take(i as int), name@) is None,
        decreases n - i,
    {
        assert(es@.take(i as int + 1).drop_last() =~= es@.take(i as int));
        assert(es@.take(i as int + 1).last() == es@[i as int]);
        if es[i].is_dir && has_existing_child_exec(&es[i].children, name) {
            proof {
                lemma_first_subdir_prefix(es@, name@, i as int + 1);
            }
            return Some(i);
        }
        i = i + 1;
    }
    assert(es@.take(n as int) =~= es@);
    None
}

proof fn lemma_first_subdir_prefix(es: Seq<FsEntry>, name: Seq<char>, k: int)
    requires
        0 <= k <= es.len(),
        first_subdir_with(es.take(k), name) is Some,
    ensures
        first_subdir_with(es, name) == first_subdir_with(es.take(k), name),
    decreases es.len(),
{
    if k < es.len() {
        assert(es.drop_last().take(k) =~= es.take(k));
        lemma_first_subdir_prefix(es.drop_last(), name, k);
    } else {
        assert(es.take(k) =~= es);
    }
}

fn nested(es: &Vec<FsEntry>, i: usize, name: &str) -> (r: String)
    requires
        i < es@.len(),
    ensures
        r@ == es@[i as int].name@ + "/"@ + name@,
{
    let mut s = owned(es[i].name.as_str());
    append_str(&mut s, "/");
    append_str(&mut s, name);
    s
}

/// The cover image to use, relative to an app's cache directory whose listing (with
/// the listing of each subdirectory) is `es`.
pub fn cover_candidate(es: &Vec<FsEntry>) -> (r: Option<String>)
    ensures
        crate::text::opt_view(r) == cover_choice(es@),
{
    if has_existing_child_exec(es, "library_600x900.jpg") {
        return Some(owned("library_600x900.jpg"));
    }
    if has_existing_child_exec(es, "header.jpg") {
        return Some(owned("header.jpg"));
    }
    match first_subdir_with_exec(es, "library_600x900.jpg") {
        Some(i) => {
            return Some(nested(es, i, "library_600x900.jpg"));
        },
        None => {},
    }
    match first_subdir_with_exec(es, "library_capsule.jpg") {
        Some(i) => {
            return Some(nested(es, i, "library_capsule.jpg"));
        },
        None => {},
    }
    match first_subdir_with_exec(es, "library_header.jpg") {
        Some(i) => Some(nested(es, i, "library_header.jpg")),
        None => None,
    }
}

/// The MIME type of a cover image file: JPEG for `.jpg`/`.jpeg`, else PNG.
pub open spec fn cover_mime(path: Seq<char>) -> Seq<char> {
    if ends_with(path, ".jpg"@) || ends_with(path, ".jpeg"@) {
        "image/jpeg"@
    } else {
        "image/png"@
    }
}

/// The data URL of a cover image, given its path and its base64 text.
pub fn cover_data_url_from(path: &str, encoded: &str) -> (r: String)
    ensures
        r@ == "data:"@ + cover_mime(path@) + ";base64,"@ + encoded@,
{
    let pc = chars_of(path);
    let mime = if has_suffix_str(pc.as_slice(), ".jpg") || has_suffix_str(
        pc.as_slice(),
        ".jpeg",
    ) {
        "image/jpeg"
    } else {
        "image/png"
    };
    let mut s = owned("data:");
    append_str(&mut s, mime);
    append_str(&mut s, ";base64,");
    append_str(&mut s, encoded);
    s
}

/// The data URL of a cover image read from `path`.
pub fn cover_data_url(path: &str, data: &[u8]) -> (r: String)
    requires
        base64_encoded_len(data@.len()) <= usize::MAX,
    ensures
        r@ == "data:"@ + cover_mime(path@) + ";base64,"@ + base64_standard_encoding(data@),
{
    let enc = base64_encode(data);
    cover_data_url_from(path, enc.as_str())
}

} // verus!
