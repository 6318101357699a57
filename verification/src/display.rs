use vstd::prelude::*;

use crate::installed::{enabled_state, is_enabled, GameManifest, InstalledMod};
use crate::modding::{mod_views, Mod, ModView};
use crate::sorting::{lemma_stably_sorted_map, sort_stable, stably_sorted, KeyView, SortKey};
use crate::text::{
    chars_eq, chars_of, contains_string, first_occurrences, lemma_first_occurrences, lowercase,
    owned, string_views, to_lowercase, without_suffix, without_suffix_chars,
};

verus! {

// ── Rows of the mod list ──────────────────────────────────────────────

/// One row of the mod list: a managed mod (installed by this application, one row per
/// manifest entry) or an unmanaged one (found by the scan, one row per display name).
pub struct DisplayMod {
    pub id: String,
    pub name: String,
    pub version: String,
    pub enabled: bool,
    pub managed: bool,
    pub components: Vec<String>,
}

/// The abstract value of a [`DisplayMod`].
pub struct DisplayModView {
    pub id: Seq<char>,
    pub name: Seq<char>,
    pub version: Seq<char>,
    pub enabled: bool,
    pub managed: bool,
    pub components: Seq<Seq<char>>,
}

impl View for DisplayMod {
    type V = DisplayModView;

    open spec fn view(&self) -> DisplayModView {
        DisplayModView {
            id: self.id@,
            name: self.name@,
            version: self.version@,
            enabled: self.enabled,
            managed: self.managed,
            components: string_views(self.components@),
        }
    }
}

/// The views of a sequence of rows.
pub open spec fn display_views(s: Seq<DisplayMod>) -> Seq<DisplayModView> {
    s.map_values(|d: DisplayMod| d@)
}

// ── What the list shows ───────────────────────────────────────────────

/// `p` is a component of some manifest entry.
pub open spec fn is_managed_path(mods: Seq<InstalledMod>, p: Seq<char>) -> bool {
    exists|i: int, j: int|
        0 <= i < mods.len() && 0 <= j < mods[i].components@.len()
            && #[trigger] mods[i].components@[j]@ == p
}

/// A path without its `.disabled` suffix.
pub open spec fn canonical_path(p: Seq<char>) -> Seq<char> {
    without_suffix(p, ".disabled"@)
}

/// A scanned mod belongs to no manifest entry, under its own path or its enabled path.
pub open spec fn is_unmanaged(mods: Seq<InstalledMod>, m: ModView) -> bool {
    !is_managed_path(mods, m.path) && !is_managed_path(mods, canonical_path(m.path))
}

/// The scanned mods that belong to no manifest entry, in scan order.
pub open spec fn unmanaged_scan(mods: Seq<InstalledMod>, s: Seq<ModView>) -> Seq<ModView>
    decreases s.len(),
{
    if s.len() == 0 {
        Seq::empty()
    } else {
        let r = unmanaged_scan(mods, s.drop_last());
        if is_unmanaged(mods, s.last()) {
            r.push(s.last())
        } else {
            r
        }
    }
}

/// The display names of scanned mods.
pub open spec fn mod_names(s: Seq<ModView>) -> Seq<Seq<char>> {
    s.map_values(|m: ModView| m.name)
}

/// The paths of the scanned mods named `n`, in scan order.
pub open spec fn paths_named(s: Seq<ModView>, n: Seq<char>) -> Seq<Seq<char>>
    decreases s.len(),
{
    if s.len() == 0 {
        Seq::empty()
    } else {
        let r = paths_named(s.drop_last(), n);
        if s.last().name == n {
            r.push(s.last().path)
        } else {
            r
        }
    }
}

/// Every scanned mod named `n` is enabled.
pub open spec fn all_enabled_named(s: Seq<ModView>, n: Seq<char>) -> bool {
    forall|i: int| 0 <= i < s.len() && (#[trigger] s[i]).name == n ==> s[i].enabled
}

/// The row of the unmanaged mods named `n`: their paths as components, the first one
/// as id, enabled when all of them are.
pub open spec fn unmanaged_row(s: Seq<ModView>, n: Seq<char>) -> DisplayModView {
    DisplayModView {
        id: paths_named(s, n)[0],
        name: n,
        version: Seq::empty(),
        enabled: all_enabled_named(s, n),
        managed: false,
        components: paths_named(s, n),
    }
}

/// One row per display name of the unmanaged mods, in the order the names first appear.
pub open spec fn unmanaged_rows(s: Seq<ModView>) -> Seq<DisplayModView> {
    first_occurrences(mod_names(s)).map_values(|n: Seq<char>| unmanaged_row(s, n))
}

/// The row of a manifest entry.
pub open spec fn managed_row(m: InstalledMod, present: Seq<Seq<char>>) -> DisplayModView {
    DisplayModView {
        id: m.id@,
        name: m.name@,
        version: m.version@,
        enabled: enabled_state(string_views(m.components@), present),
        managed: true,
        components: string_views(m.components@),
    }
}

/// The rows before ordering: the manifest entries, then the unmanaged groups.
pub open spec fn display_rows(
    mods: Seq<InstalledMod>,
    present: Seq<Seq<char>>,
    scanned: Seq<ModView>,
) -> Seq<DisplayModView> {
    mods.map_values(|m: InstalledMod| managed_row(m, present)) + unmanaged_rows(
        unmanaged_scan(mods, scanned),
    )
}

/// Rows are listed by lower-cased name.
pub open spec fn display_order_key(v: DisplayModView) -> KeyView {
    (0u64, 0u64, lowercase(v.name))
}

// ── Facts about grouping ──────────────────────────────────────────────

proof fn lemma_group_push(s: Seq<ModView>, x: ModView, n: Seq<char>)
    ensures
        paths_named(s.push(x), n) == (if x.name == n {
            paths_named(s, n).push(x.path)
        } else {
            paths_named(s, n)
        }),
        all_enabled_named(s.push(x), n) == (all_enabled_named(s, n) && (x.name == n
            ==> x.enabled)),
        mod_names(s.push(x)) == mod_names(s).push(x.name),
{
    let t = s.push(x);
    assert(t.drop_last() =~= s);
    assert(mod_names(t) =~= mod_names(s).push(x.name));
    if all_enabled_named(t, n) {
        assert forall|i: int| 0 <= i < s.len() && (#[trigger] s[i]).name == n implies s[i].enabled by {
            assert(t[i] == s[i]);
        }
        assert(t[s.len() as int] == x);
    }
    if all_enabled_named(s, n) && (x.name == n ==> x.enabled) {
        assert forall|i: int| 0 <= i < t.len() && (#[trigger] t[i]).name == n implies t[i].enabled by {
            if i < s.len() {
                assert(t[i] == s[i]);
            }
        }
    }
}

proof fn lemma_absent_name(s: Seq<ModView>, n: Seq<char>)
    requires
        !mod_names(s).contains(n),
    ensures
        paths_named(s, n) == Seq::<Seq<char>>::empty(),
        all_enabled_named(s, n),
    decreases s.len(),
{
    if s.len() > 0 {
        let d = s.drop_last();
        assert(mod_names(s)[s.len() - 1] == s.last().name);
        if mod_names(d).contains(n) {
            let k = choose|k: int| 0 <= k < mod_names(d).len() && mod_names(d)[k] == n;
            assert(mod_names(s)[k] == n);
        }
        lemma_absent_name(d, n);
    }
    assert forall|i: int| 0 <= i < s.len() && (#[trigger] s[i]).name == n implies s[i].enabled by {
        assert(mod_names(s)[i] == n);
    }
}

/// The paths of the mods named `n` are paths of mods of `s`.
proof fn lemma_paths_named_from(s: Seq<ModView>, n: Seq<char>, t: int)
    requires
        0 <= t < paths_named(s, n).len(),
    ensures
        exists|x: int| 0 <= x < s.len() && (#[trigger] s[x]).path == paths_named(s, n)[t],
    decreases s.len(),
{
    let d = s.drop_last();
    let r = paths_named(d, n);
    if t < r.len() {
        lemma_paths_named_from(d, n, t);
        let x = choose|x: int| 0 <= x < d.len() && (#[trigger] d[x]).path == r[t];
        assert(s[x] == d[x]);
    } else {
        assert(s[s.len() - 1].path == paths_named(s, n)[t]);
    }
}

/// Every mod that the unmanaged scan keeps belongs to no manifest entry.
proof fn lemma_unmanaged_scan_members(mods: Seq<InstalledMod>, s: Seq<ModView>, x: int)
    requires
        0 <= x < unmanaged_scan(mods, s).len(),
    ensures
        is_unmanaged(mods, unmanaged_scan(mods, s)[x]),
    decreases s.len(),
{
    let r = unmanaged_scan(mods, s.drop_last());
    if x < r.len() {
        lemma_unmanaged_scan_members(mods, s.drop_last(), x);
    }
}

/// No unmanaged row holds a file of a managed mod: none of its components is, with or
/// without a `.disabled` suffix, any component (at any position) of any manifest entry.
pub proof fn law_unmanaged_rows_hold_no_manifest_path(
    mods: Seq<InstalledMod>,
    present: Seq<Seq<char>>,
    scanned: Seq<ModView>,
    q: int,
    t: int,
    i: int,
    j: int,
)
    requires
        0 <= q < display_rows(mods, present, scanned).len(),
        !display_rows(mods, present, scanned)[q].managed,
        0 <= t < display_rows(mods, present, scanned)[q].components.len(),
        0 <= i < mods.len(),
        0 <= j < mods[i].components@.len(),
    ensures
        display_rows(mods, present, scanned)[q].components[t] != mods[i].components@[j]@,
        without_suffix(display_rows(mods, present, scanned)[q].components[t], ".disabled"@)
            != mods[i].components@[j]@,
{
    let rows = display_rows(mods, present, scanned);
    let m = mods.len() as int;
    let managed = mods.map_values(|e: InstalledMod| managed_row(e, present));
    let k = unmanaged_scan(mods, scanned);
    let fo = first_occurrences(mod_names(k));
    if q < m {
        assert(rows[q] == managed[q]);
    }
    assert(rows[q] == unmanaged_rows(k)[q - m]);
    let n = fo[q - m];
    assert(rows[q] == unmanaged_row(k, n));
    lemma_paths_named_from(k, n, t);
    let x = choose|x: int| 0 <= x < k.len() && (#[trigger] k[x]).path == paths_named(k, n)[t];
    lemma_unmanaged_scan_members(mods, scanned, x);
    let c = rows[q].components[t];
    assert(c == k[x].path);
    if c == mods[i].components@[j]@ {
        assert(is_managed_path(mods, c));
    }
    if without_suffix(c, ".disabled"@) == mods[i].components@[j]@ {
        assert(is_managed_path(mods, canonical_path(c)));
    }
}

// ── Executable parts ──────────────────────────────────────────────────

/// A copy of a vector of strings.
fn copy_strings(v: &Vec<String>) -> (r: Vec<String>)
    ensures
        string_views(r@) == string_views(v@),
{
    let mut out: Vec<String> = Vec::new();
    let n = v.len();
    let mut i: usize = 0;
    while i < n
        invariant
            n == v@.len(),
            i <= n,
            string_views(out@) == string_views(v@).take(i as int),
        decreases n - i,
    {
        let ghost before = string_views(out@);
        out.push(owned(v[i].as_str()));
        assert(string_views(out@) =~= before.push(v@[i as int]@));
        assert(string_views(v@).take(i as int + 1) =~= string_views(v@).take(i as int).push(
            v@[i as int]@,
        ));
        i = i + 1;
    }
    assert(string_views(v@).take(n as int) =~= string_views(v@));
    out
}

/// Whether `p` is a component of some manifest entry.
fn managed_contains(mods: &Vec<InstalledMod>, p: &[char]) -> (r: bool)
    ensures
        r == is_managed_path(mods@, p@),
{
    let n = mods.len();
    let mut i: usize = 0;
    while i < n
        invariant
            n == mods@.len(),
            i <= n,
            forall|a: int, j: int|
                0 <= a < i && 0 <= j < mods@[a].components@.len() ==> #[trigger] mods@[a].components@[j]@
                    != p@,
        decreases n - i,
    {
        let found = contains_string(mods[i].components.as_slice(), p);
        if found {
            let ghost c = mods@[i as int].components@;
            let ghost j = choose|j: int| 0 <= j < string_views(c).len() && string_views(c)[j] == p@;
            assert(c[j]@ == p@);
            return true;
        }
        let ghost c = mods@[i as int].components@;
        assert forall|j: int| 0 <= j < c.len() implies #[trigger] c[j]@ != p@ by {
            assert(string_views(c)[j] == c[j]@);
        }
        i = i + 1;
    }
    false
}

/// The row of a manifest entry, given the paths found on disk.
fn managed_row_of(m: &InstalledMod, present: &[String]) -> (r: DisplayMod)
    ensures
        r@ == managed_row(*m, string_views(present@)),
{
    let enabled = is_enabled(m.components.as_slice(), present);
    DisplayMod {
        id: owned(m.id.as_str()),
        name: owned(m.name.as_str()),
        version: owned(m.version.as_str()),
        enabled,
        managed: true,
        components: copy_strings(&m.components),
    }
}

/// Where `x` stands among the strings, if it does.
fn position_of(v: &Vec<String>, x: &[char]) -> (r: Option<usize>)
    ensures
        match r {
            Some(k) => k < v@.len() && v@[k as int]@ == x@,
            None => !string_views(v@).contains(x@),
        },
{
    let n = v.len();
    let mut i: usize = 0;
    while i < n
        invariant
            n == v@.len(),
            i <= n,
            forall|j: int| 0 <= j < i ==> string_views(v@)[j] != x@,
        decreases n - i,
    {
        if chars_eq(chars_of(v[i].as_str()).as_slice(), x) {
            return Some(i);
        }
        i = i + 1;
    }
    None
}

/// The unmanaged mods of a scan, one row per display name, in the order the names
/// first appear.
pub fn unmanaged_groups(mods: &Vec<InstalledMod>, scanned: &[Mod]) -> (r: Vec<DisplayMod>)
    ensures
        display_views(r@) == unmanaged_rows(unmanaged_scan(mods@, mod_views(scanned@))),
{
    let ghost sv = mod_views(scanned@);
    let n = scanned.len();
    let mut names: Vec<String> = Vec::new();
    let mut paths: Vec<Vec<String>> = Vec::new();
    let mut enabled: Vec<bool> = Vec::new();
    let mut i: usize = 0;
    assert(sv.take(0) =~= Seq::<ModView>::empty());
    while i < n
        invariant
            n == scanned@.len(),
            sv == mod_views(scanned@),
            i <= n,
            string_views(names@) == first_occurrences(
                mod_names(unmanaged_scan(mods@, sv.take(i as int))),
            ),
            paths@.len() == names@.len(),
            enabled@.len() == names@.len(),
            forall|k: int|
                0 <= k < names@.len() ==> #[trigger] string_views(paths@[k]@) == paths_named(
                    unmanaged_scan(mods@, sv.take(i as int)),
                    names@[k]@,
                ),
            forall|k: int| 0 <= k < names@.len() ==> (#[trigger] paths@[k])@.len() > 0,
            forall|k: int|
                0 <= k < names@.len() ==> #[trigger] enabled@[k] == all_enabled_named(
                    unmanaged_scan(mods@, sv.take(i as int)),
                    names@[k]@,
                ),
        decreases n - i,
    {
        let ghost kp = unmanaged_scan(mods@, sv.take(i as int));
        let ghost x = scanned@[i as int]@;
        proof {
            assert(sv.take(i as int + 1).drop_last() =~= sv.take(i as int));
            assert(sv.take(i as int + 1).last() == x);
            lemma_first_occurrences(mod_names(kp));
        }
        let m = &scanned[i];
        let pc = chars_of(m.path.as_str());
        let canon = without_suffix_chars(pc.as_slice(), ".disabled");
        let managed = managed_contains(mods, pc.as_slice()) || managed_contains(
            mods,
            canon.as_slice(),
        );
        if !managed {
            let ghost kn = kp.push(x);
            proof {
                assert(unmanaged_scan(mods@, sv.take(i as int + 1)) == kn);
            }
            let nc = chars_of(m.name.as_str());
            match position_of(&names, nc.as_slice()) {
                Some(k) => {
                    let ghost old_paths = paths@;
                    let ghost old_enabled = enabled@;
                    let mut ps = copy_strings(&paths[k]);
                    let ghost before = string_views(ps@);
                    ps.push(owned(m.path.as_str()));
                    assert(string_views(ps@) =~= before.push(x.path));
                    paths.set(k, ps);
                    let e = enabled[k] && m.enabled;
                    enabled.set(k, e);
                    proof {
                        assert(string_views(names@)[k as int] == x.name);
                        assert(first_occurrences(mod_names(kp)).contains(x.name));
                        assert(first_occurrences(mod_names(kn)) == first_occurrences(
                            mod_names(kp),
                        )) by {
                            lemma_group_push(kp, x, x.name);
                            assert(mod_names(kn).drop_last() =~= mod_names(kp));
                        }
                        assert forall|j: int| #![trigger names@[j]] 0 <= j < names@.len() implies string_views(
                            paths@[j]@,
                        ) == paths_named(kn, names@[j]@) && paths@[j]@.len() > 0 && enabled@[j]
                            == all_enabled_named(kn, names@[j]@) by {
                            lemma_group_push(kp, x, names@[j]@);
                            assert(string_views(old_paths[j]@) == paths_named(kp, names@[j]@));
                            assert(old_enabled[j] == all_enabled_named(kp, names@[j]@));
                            if j != k {
                                assert(string_views(names@)[j] == names@[j]@);
                                assert(names@[j]@ != x.name);
                                assert(paths@[j] == old_paths[j]);
                                assert(enabled@[j] == old_enabled[j]);
                            } else {
                                assert(names@[j]@ == x.name);
                            }
                        }
                    }
                },
                None => {
                    let ghost old_names = names@;
                    let ghost old_paths = paths@;
                    let ghost old_enabled = enabled@;
                    names.push(owned(m.name.as_str()));
                    let mut ps: Vec<String> = Vec::new();
                    ps.push(owned(m.path.as_str()));
                    assert(string_views(ps@) =~= seq![x.path]);
                    paths.push(ps);
                    enabled.push(m.enabled);
                    proof {
                        assert(!mod_names(kp).contains(x.name));
                        lemma_absent_name(kp, x.name);
                        lemma_group_push(kp, x, x.name);
                        assert(mod_names(kn).drop_last() =~= mod_names(kp));
                        assert(mod_names(kn).last() == x.name);
                        assert(string_views(names@) =~= string_views(old_names).push(x.name));
                        assert forall|j: int| #![trigger names@[j]] 0 <= j < names@.len() implies string_views(
                            paths@[j]@,
                        ) == paths_named(kn, names@[j]@) && paths@[j]@.len() > 0 && enabled@[j]
                            == all_enabled_named(kn, names@[j]@) by {
                            lemma_group_push(kp, x, names@[j]@);
                            if j < old_names.len() {
                                assert(string_views(old_names)[j] == old_names[j]@);
                                assert(names@[j] == old_names[j]);
                                assert(old_names[j]@ != x.name);
                                assert(paths@[j] == old_paths[j]);
                                assert(enabled@[j] == old_enabled[j]);
                                assert(string_views(old_paths[j]@) == paths_named(kp, names@[j]@));
                                assert(old_enabled[j] == all_enabled_named(kp, names@[j]@));
                            } else {
                                assert(names@[j]@ == x.name);
                                assert(seq![x.path] =~= Seq::<Seq<char>>::empty().push(x.path));
                            }
                        }
                    }
                },
            }
        } else {
            proof {
                assert(unmanaged_scan(mods@, sv.take(i as int + 1)) == kp);
            }
        }
        i = i + 1;
    }
    let ghost ks = unmanaged_scan(mods@, sv);
    assert(sv.take(n as int) =~= sv);
    let mut rows: Vec<DisplayMod> = Vec::new();
    let g = names.len();
    let mut k: usize = 0;
    while k < g
        invariant
            g == names@.len(),
            k <= g,
            paths@.len() == g,
            enabled@.len() == g,
            ks == unmanaged_scan(mods@, sv),
            string_views(names@) == first_occurrences(mod_names(ks)),
            forall|j: int|
                0 <= j < g ==> #[trigger] string_views(paths@[j]@) == paths_named(ks, names@[j]@)
                    && paths@[j]@.len() > 0 && enabled@[j] == all_enabled_named(ks, names@[j]@),
            display_views(rows@) == first_occurrences(mod_names(ks)).take(k as int).map_values(
                |nm: Seq<char>| unmanaged_row(ks, nm),
            ),
        decreases g - k,
    {
        let ghost before = display_views(rows@);
        let ps = copy_strings(&paths[k]);
        let id = owned(paths[k][0].as_str());
        let row = DisplayMod {
            id,
            name: owned(names[k].as_str()),
            version: String::new(),
            enabled: enabled[k],
            managed: false,
            components: ps,
        };
        proof {
            assert(string_views(names@)[k as int] == names@[k as int]@);
            assert(string_views(paths@[k as int]@)[0] == paths@[k as int]@[0]@);
            assert(row@ == unmanaged_row(ks, names@[k as int]@));
        }
        rows.push(row);
        proof {
            let fo = first_occurrences(mod_names(ks));
            let f = |nm: Seq<char>| unmanaged_row(ks, nm);
            assert(display_views(rows@) =~= before.push(row@));
            assert(fo.take(k as int + 1) =~= fo.take(k as int).push(fo[k as int]));
            assert(fo.take(k as int + 1).map_values(f) =~= fo.take(k as int).map_values(f).push(
                f(fo[k as int]),
            ));
        }
        k = k + 1;
    }
    proof {
        let fo = first_occurrences(mod_names(ks));
        assert(fo.take(g as int) =~= fo);
    }
    rows
}

/// The mod list of a game: one row per manifest entry, enabled when its first component
/// is among the paths found on disk (`present`), then one row per display name of the scanned mods
/// that belong to no manifest entry; all ordered by lower-cased name, stably.
pub fn list_display_mods(manifest: &GameManifest, present: &[String], scanned: &[Mod]) -> (r: Vec<
    DisplayMod,
>)
    ensures
        stably_sorted(
            display_views(r@),
            display_rows(manifest.mods@, string_views(present@), mod_views(scanned@)),
            |v: DisplayModView| display_order_key(v),
        ),
{
    let mods = &manifest.mods;
    let ghost pv = string_views(present@);
    let ghost mf = |m: InstalledMod| managed_row(m, pv);
    let mut rows: Vec<DisplayMod> = Vec::new();
    let n = mods.len();
    let mut i: usize = 0;
    while i < n
        invariant
            n == mods@.len(),
            i <= n,
            pv == string_views(present@),
            mf == (|m: InstalledMod| managed_row(m, pv)),
            display_views(rows@) == mods@.take(i as int).map_values(mf),
        decreases n - i,
    {
        let ghost before = display_views(rows@);
        let row = managed_row_of(&mods[i], present);
        rows.push(row);
        proof {
            assert(display_views(rows@) =~= before.push(mf(mods@[i as int])));
            assert(mods@.take(i as int + 1) =~= mods@.take(i as int).push(mods@[i as int]));
            assert(mods@.take(i as int + 1).map_values(mf) =~= mods@.take(i as int).map_values(
                mf,
            ).push(mf(mods@[i as int])));
        }
        i = i + 1;
    }
    proof {
        assert(mods@.take(n as int) =~= mods@);
    }
    let ghost managed_part = display_views(rows@);
    let mut groups = unmanaged_groups(mods, scanned);
    let ghost group_part = display_views(groups@);
    rows.append(&mut groups);
    proof {
        assert(display_views(rows@) =~= managed_part + group_part);
    }
    let mut keys: Vec<SortKey> = Vec::new();
    let m = rows.len();
    let mut j: usize = 0;
    while j < m
        invariant
            m == rows@.len(),
            j <= m,
            keys@.len() == j,
            forall|q: int| 0 <= q < j ==> #[trigger] keys@[q]@ == display_order_key(rows@[q]@),
        decreases m - j,
    {
        let lower = to_lowercase(rows[j].name.as_str());
        keys.push(SortKey { major: 0, minor: 0, text: chars_of(lower.as_str()) });
        j = j + 1;
    }
    let ghost orig = rows@;
    let ghost kf = |d: DisplayMod| display_order_key(d@);
    let sorted = sort_stable(rows, keys, Ghost(kf));
    proof {
        let f = |d: DisplayMod| d@;
        let kv = |v: DisplayModView| display_order_key(v);
        assert(kf == (|x: DisplayMod| kv(f(x))));
        lemma_stably_sorted_map(sorted@, orig, f, kv);
        assert(orig.map_values(f) == display_views(orig));
        assert(display_views(orig) == display_rows(mods@, pv, mod_views(scanned@)));
    }
    sorted
}

// ── Toggling and removing components ──────────────────────────────────

/// The rename that toggling a component performs when its source exists: enabling
/// renames `{path}.disabled` to `path`, disabling renames `path` to `{path}.disabled`.
pub open spec fn toggle_rename(path: Seq<char>, enabled: bool) -> (Seq<char>, Seq<char>) {
    if enabled {
        (path + ".disabled"@, path)
    } else {
        (path, path + ".disabled"@)
    }
}

/// The renames that toggling the components of a mod performs, in order; each one is
/// made only where its source exists.
pub fn toggle_plan(components: &Vec<String>, enabled: bool) -> (r: Vec<(String, String)>)
    ensures
        r@.len() == components@.len(),
        forall|i: int|
            0 <= i < r@.len() ==> (#[trigger] r@[i].0@, r@[i].1@) == toggle_rename(
                components@[i]@,
                enabled,
            ),
{
    let mut out: Vec<(String, String)> = Vec::new();
    let n = components.len();
    let mut i: usize = 0;
    while i < n
        invariant
            n == components@.len(),
            i <= n,
            out@.len() == i,
            forall|j: int|
                0 <= j < i ==> (#[trigger] out@[j].0@, out@[j].1@) == toggle_rename(
                    components@[j]@,
                    enabled,
                ),
        decreases n - i,
    {
        let plain = owned(components[i].as_str());
        let mut disabled = owned(components[i].as_str());
        crate::text::append_str(&mut disabled, ".disabled");
        if enabled {
            out.push((disabled, plain));
        } else {
            out.push((plain, disabled));
        }
        i = i + 1;
    }
    out
}

/// Disabling a component and enabling it again renames it back: the rename that
/// enabling makes undoes the one that disabling made.
pub proof fn law_toggle_round_trip(path: Seq<char>)
    ensures
        toggle_rename(path, true).0 == toggle_rename(path, false).1,
        toggle_rename(path, true).1 == toggle_rename(path, false).0,
{
}

/// What removing one component does.
#[derive(Debug, Clone, Copy, PartialEq, Eq, Structural)]
pub enum Removal {
    /// Nothing is there: nothing to do.
    Skip,
    /// A directory: remove it with everything below it.
    RemoveDir,
    /// Anything else: remove the file.
    RemoveFile,
}

/// How a component is removed, given whether it exists and is a directory.
pub fn removal_for(exists: bool, is_dir: bool) -> (r: Removal)
    ensures
        !exists ==> r == Removal::Skip,
        exists && is_dir ==> r == Removal::RemoveDir,
        exists && !is_dir ==> r == Removal::RemoveFile,
{
    if !exists {
        Removal::Skip
    } else if is_dir {
        Removal::RemoveDir
    } else {
        Removal::RemoveFile
    }
}

/// The error reported when a component cannot be removed.
pub fn removal_error(path: &str, detail: &str) -> (r: String)
    ensures
        r@ == "Cannot remove "@ + path@ + ": "@ + detail@,
{
    let mut e = owned("Cannot remove ");
    crate::text::append_str(&mut e, path);
    crate::text::append_str(&mut e, ": ");
    crate::text::append_str(&mut e, detail);
    e
}

} // verus!
