use vstd::prelude::*;

use crate::text::{
    append_str, chars_of, contains_string, decimal, decimal_string, owned, path_join, join_path, string_of,
    string_views,
};

verus! {

// ── Data structures ───────────────────────────────────────────────────

/// A mod that this application installed, with the top-level paths it put in place.
pub struct InstalledMod {
    pub id: String,
    pub name: String,
    pub version: String,
    pub nexus_mod_id: Option<u64>,
    pub nexus_file_id: Option<u64>,
    /// Absolute top-level paths (scanner-visible files and directories) for toggle/uninstall.
    pub components: Vec<String>,
}

/// The installed mods of one game.
pub struct GameManifest {
    pub mods: Vec<InstalledMod>,
}

impl Default for GameManifest {
    fn default() -> (r: Self)
        ensures
            r.mods@.len() == 0,
    {
        GameManifest { mods: Vec::new() }
    }
}

// ── Manifest updates ──────────────────────────────────────────────────

/// The entries of `s` whose id is not `id`, in order.
pub open spec fn without_id(s: Seq<InstalledMod>, id: Seq<char>) -> Seq<InstalledMod>
    decreases s.len(),
{
    if s.len() == 0 {
        Seq::empty()
    } else {
        let r = without_id(s.drop_last(), id);
        if s.last().id@ == id {
            r
        } else {
            r.push(s.last())
        }
    }
}

/// The entries of `s` whose id is `id`, in order.
pub open spec fn with_id(s: Seq<InstalledMod>, id: Seq<char>) -> Seq<InstalledMod>
    decreases s.len(),
{
    if s.len() == 0 {
        Seq::empty()
    } else {
        let r = with_id(s.drop_last(), id);
        if s.last().id@ == id {
            r.push(s.last())
        } else {
            r
        }
    }
}

/// The manifest entries after recording `entry`: any entry with the same id is replaced,
/// and the new entry comes last.
pub open spec fn added(s: Seq<InstalledMod>, entry: InstalledMod) -> Seq<InstalledMod> {
    without_id(s, entry.id@).push(entry)
}

/// Takes the entries out of a manifest, leaving it empty.
fn take_mods(manifest: &mut GameManifest) -> (r: Vec<InstalledMod>)
    ensures
        r@ == old(manifest).mods@,
        final(manifest).mods@.len() == 0,
{
    let mut out: Vec<InstalledMod> = Vec::new();
    std::mem::swap(&mut out, &mut manifest.mods);
    out
}

/// Removes every entry whose id is `id`.
fn retain_other_ids(manifest: &mut GameManifest, id: &str)
    ensures
        final(manifest).mods@ == without_id(old(manifest).mods@, id@),
{
    let mut old_mods = take_mods(manifest);
    let ghost orig = old_mods@;
    let n = old_mods.len();
    let mut i: usize = 0;
    let idc = chars_of(id);
    assert(orig.take(0) =~= Seq::<InstalledMod>::empty());
    while i < n
        invariant
            n == orig.len(),
            i <= n,
            idc@ == id@,
            old_mods@ == orig.skip(i as int),
            manifest.mods@ == without_id(orig.take(i as int), id@),
        decreases n - i,
    {
        let m = old_mods.remove(0);
        assert(m == orig[i as int]);
        assert(orig.take(i as int + 1).drop_last() == orig.take(i as int));
        assert(orig.take(i as int + 1).last() == m);
        let same = crate::text::chars_eq(chars_of(m.id.as_str()).as_slice(), idc.as_slice());
        if !same {
            manifest.mods.push(m);
        }
        assert(old_mods@ =~= orig.skip(i as int + 1));
        i = i + 1;
    }
    assert(orig.take(n as int) =~= orig);
}

/// Records an installed mod, replacing any entry with the same id.
pub fn add_mod(manifest: &mut GameManifest, entry: InstalledMod)
    ensures
        final(manifest).mods@ == added(old(manifest).mods@, entry),
{
    retain_other_ids(manifest, entry.id.as_str());
    manifest.mods.push(entry);
}

/// Forgets the installed mod with the given id (every entry with that id).
pub fn remove_mod(manifest: &mut GameManifest, mod_id: &str)
    ensures
        final(manifest).mods@ == without_id(old(manifest).mods@, mod_id@),
{
    retain_other_ids(manifest, mod_id);
}

// ── Laws of the manifest ──────────────────────────────────────────────

proof fn lemma_without_id_with_id_none(s: Seq<InstalledMod>, id: Seq<char>)
    ensures
        with_id(without_id(s, id), id) == Seq::<InstalledMod>::empty(),
        forall|i: int| 0 <= i < without_id(s, id).len() ==> (#[trigger] without_id(s, id)[i]).id@ != id,
    decreases s.len(),
{
    if s.len() > 0 {
        lemma_without_id_with_id_none(s.drop_last(), id);
        let r = without_id(s.drop_last(), id);
        if s.last().id@ != id {
            assert(r.push(s.last()).drop_last() =~= r);
            assert forall|i: int| 0 <= i < r.push(s.last()).len() implies (#[trigger] r.push(
                s.last(),
            )[i]).id@ != id by {
                if i < r.len() {
                    assert(r.push(s.last())[i] == r[i]);
                }
            }
        }
    }
}

proof fn lemma_without_id_idempotent(s: Seq<InstalledMod>, id: Seq<char>)
    ensures
        without_id(without_id(s, id), id) == without_id(s, id),
    decreases s.len(),
{
    if s.len() > 0 {
        lemma_without_id_idempotent(s.drop_last(), id);
        let r = without_id(s.drop_last(), id);
        if s.last().id@ != id {
            assert(r.push(s.last()).drop_last() =~= r);
        }
    }
}

proof fn lemma_without_id_other(s: Seq<InstalledMod>, id: Seq<char>, other: Seq<char>)
    requires
        id != other,
    ensures
        with_id(without_id(s, id), other) == with_id(s, other),
    decreases s.len(),
{
    if s.len() > 0 {
        lemma_without_id_other(s.drop_last(), id, other);
        let r = without_id(s.drop_last(), id);
        if s.last().id@ != id {
            assert(r.push(s.last()).drop_last() =~= r);
        }
    }
}

/// After a mod is recorded, the manifest holds exactly one entry with its id: the new
/// entry, in last place.
pub proof fn law_added_entry_is_unique(s: Seq<InstalledMod>, entry: InstalledMod)
    ensures
        with_id(added(s, entry), entry.id@) == seq![entry],
        added(s, entry).last() == entry,
{
    lemma_without_id_with_id_none(s, entry.id@);
    let r = without_id(s, entry.id@);
    assert(r.push(entry).drop_last() =~= r);
    assert(seq![entry] =~= Seq::<InstalledMod>::empty().push(entry));
}

/// Recording the same mod twice leaves the manifest as recording it once.
pub proof fn law_add_idempotent(s: Seq<InstalledMod>, entry: InstalledMod)
    ensures
        added(added(s, entry), entry) == added(s, entry),
{
    let r = without_id(s, entry.id@);
    assert(r.push(entry).drop_last() =~= r);
    lemma_without_id_idempotent(s, entry.id@);
}

/// Removing a mod right after recording it leaves the manifest as removing it alone.
pub proof fn law_remove_after_add(s: Seq<InstalledMod>, entry: InstalledMod)
    ensures
        without_id(added(s, entry), entry.id@) == without_id(s, entry.id@),
{
    let r = without_id(s, entry.id@);
    assert(r.push(entry).drop_last() =~= r);
    lemma_without_id_idempotent(s, entry.id@);
}

/// Removing a mod twice is the same as removing it once.
pub proof fn law_remove_idempotent(s: Seq<InstalledMod>, id: Seq<char>)
    ensures
        without_id(without_id(s, id), id) == without_id(s, id),
{
    lemma_without_id_idempotent(s, id);
}

/// Recording or removing one mod leaves the entries of every other id untouched.
pub proof fn law_other_ids_untouched(s: Seq<InstalledMod>, entry: InstalledMod, other: Seq<char>)
    requires
        other != entry.id@,
    ensures
        with_id(added(s, entry), other) == with_id(s, other),
        with_id(without_id(s, entry.id@), other) == with_id(s, other),
{
    lemma_without_id_other(s, entry.id@, other);
    let r = without_id(s, entry.id@);
    assert(r.push(entry).drop_last() =~= r);
}

// ── Entries and paths ─────────────────────────────────────────────────

/// The manifest id of a mod installed from NexusMods: `{mod id}_{file id}`.
pub open spec fn managed_id(nexus_mod_id: u64, file_id: u64) -> Seq<char> {
    decimal(nexus_mod_id as nat) + "_"@ + decimal(file_id as nat)
}

/// The manifest entry of a mod installed from NexusMods.
pub fn managed_entry(
    nexus_mod_id: u64,
    file_id: u64,
    name: String,
    version: String,
    components: Vec<String>,
) -> (r: InstalledMod)
    ensures
        r.id@ == managed_id(nexus_mod_id, file_id),
        r.name == name,
        r.version == version,
        r.nexus_mod_id == Some(nexus_mod_id),
        r.nexus_file_id == Some(file_id),
        r.components == components,
{
    let mut id = decimal_string(nexus_mod_id);
    append_str(&mut id, "_");
    let f = decimal_string(file_id);
    append_str(&mut id, f.as_str());
    InstalledMod {
        id,
        name,
        version,
        nexus_mod_id: Some(nexus_mod_id),
        nexus_file_id: Some(file_id),
        components,
    }
}

/// Where the manifest of a game is stored, below the home directory.
pub fn manifest_path(home: &str, app_id: &str) -> (r: String)
    ensures
        r@ == path_join(home@, ".config/linux-mod-manager/mods_"@ + app_id@ + ".json"@),
{
    let mut rel = owned(".config/linux-mod-manager/mods_");
    append_str(&mut rel, app_id);
    append_str(&mut rel, ".json");
    let j = join_path(chars_of(home).as_slice(), chars_of(rel.as_str()).as_slice());
    string_of(j.as_slice())
}

// ── Component enabled-state helpers ───────────────────────────────────

/// A managed mod is enabled when its first component exists without a `.disabled`
/// suffix, that is, when it is among the paths found on disk.
pub open spec fn enabled_state(components: Seq<Seq<char>>, present: Seq<Seq<char>>) -> bool {
    components.len() > 0 && present.contains(components[0])
}

/// Whether a managed mod is enabled, given the paths found on disk: its first
/// component exists under its own name.
pub fn is_enabled(components: &[String], present: &[String]) -> (r: bool)
    ensures
        r == enabled_state(string_views(components@), string_views(present@)),
{
    if components.len() == 0 {
        return false;
    }
    let first = chars_of(components[0].as_str());
    assert(string_views(components@)[0] == components@[0]@);
    contains_string(present, first.as_slice())
}

} // verus!
