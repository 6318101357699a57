use vstd::prelude::*;

pub mod cyberpunk;

use crate::sorting::{stably_sorted, strictly_ascending, KeyView};
use crate::text::{
    chars_eq_str, ends_with, has_suffix_str, owned, string_views, strip_suffix, strip_suffix_chars,
    chars_of, string_of,
};

verus! {

// ── Shared types ─────────────────────────────────────────────────────

/// The kind of a detected mod.
#[derive(Debug, Clone, Copy, PartialEq, Eq, Structural)]
pub enum ModType {
    Archive,
    Redmod,
    Cet,
    Red4ext,
    Redscript,
    Tweak,
}

/// A mod found by scanning a game directory.
pub struct Mod {
    pub name: String,
    pub mod_type: ModType,
    pub path: String,
    pub enabled: bool,
}

/// The abstract value of a [`Mod`].
pub struct ModView {
    pub name: Seq<char>,
    pub mod_type: ModType,
    pub path: Seq<char>,
    pub enabled: bool,
}

impl View for Mod {
    type V = ModView;

    open spec fn view(&self) -> ModView {
        ModView {
            name: self.name@,
            mod_type: self.mod_type,
            path: self.path@,
            enabled: self.enabled,
        }
    }
}

/// The views of a sequence of mods.
pub open spec fn mod_views(s: Seq<Mod>) -> Seq<ModView> {
    s.map_values(|m: Mod| m@)
}

/// One entry of a directory listing: its name, whether it exists (a link that
/// resolves to anything), whether it is (or links to) a file or a directory, and the
/// listing of its own entries where the scan needed them.
pub struct FsEntry {
    pub name: String,
    pub exists: bool,
    pub is_file: bool,
    pub is_dir: bool,
    pub children: Vec<FsEntry>,
}

/// What a scan of a game's install directory read: the listing of each mod
/// directory (empty where it could not be read).
pub struct InstallTree {
    /// `archive/pc/mod`
    pub archive_mod: Vec<FsEntry>,
    /// `mods`, with each entry's own listing
    pub mods: Vec<FsEntry>,
    /// `bin/x64/plugins/cyber_engine_tweaks/mods`
    pub cet_mods: Vec<FsEntry>,
    /// `red4ext/plugins`, with each entry's own listing
    pub red4ext_plugins: Vec<FsEntry>,
    /// `r6/scripts`, with every directory's listing below it
    pub r6_scripts: Vec<FsEntry>,
    /// `r6/tweaks`
    pub r6_tweaks: Vec<FsEntry>,
}

// ── Dispatch ─────────────────────────────────────────────────────────

/// The Steam app id of Cyberpunk 2077, the one game with mod support.
pub open spec fn is_cyberpunk(app_id: Seq<char>) -> bool {
    app_id == "1091500"@
}

/// Whether the game has a mod scanner: whether `app_id` is Cyberpunk 2077's. Only then
/// is the install directory worth reading.
pub fn is_cyberpunk_app(app_id: &str) -> (b: bool)
    ensures
        b == is_cyberpunk(app_id@),
{
    chars_eq_str(chars_of(app_id).as_slice(), "1091500")
}

/// The mods of a game's install directory, as the game's scanner finds them in `tree`.
pub fn list_mods(app_id: &str, install_dir: &str, tree: &InstallTree) -> (r: Vec<Mod>)
    ensures
        is_cyberpunk(app_id@) ==> stably_sorted(
            mod_views(r@),
            cyberpunk::scanned_mods(install_dir@, *tree),
            |v: ModView| cyberpunk::mod_order_key(v),
        ),
        !is_cyberpunk(app_id@) ==> r@.len() == 0,
{
    if chars_eq_str(chars_of(app_id).as_slice(), "1091500") {
        cyberpunk::list_mods(install_dir, tree)
    } else {
        Vec::new()
    }
}

/// The scanner-visible components of the files an install extracted.
pub fn derive_components(app_id: &str, install_dir: &str, extracted: &[String]) -> (r: Vec<
    String,
>)
    ensures
        is_cyberpunk(app_id@) ==> strictly_ascending(string_views(r@)),
        is_cyberpunk(app_id@) ==> forall|v: Seq<char>| #[trigger] string_views(r@).contains(v)
            <==> cyberpunk::is_component(install_dir@, string_views(extracted@), v),
        !is_cyberpunk(app_id@) ==> r@.len() == 0,
{
    if chars_eq_str(chars_of(app_id).as_slice(), "1091500") {
        cyberpunk::derive_components(install_dir, extracted)
    } else {
        Vec::new()
    }
}

/// The path that toggling a mod renames `path` to: enabling removes a `.disabled`
/// suffix (an error when there is none), disabling appends one.
pub open spec fn toggle_target(path: Seq<char>, enabled: bool) -> Result<Seq<char>, Seq<char>> {
    if enabled {
        match strip_suffix(path, ".disabled"@) {
            Some(p) => Ok(p),
            None => Err("path does not end in .disabled: "@ + path),
        }
    } else {
        Ok(path + ".disabled"@)
    }
}

/// The new path of a mod being enabled or disabled; the caller renames `path` to it.
pub fn toggle_mod(path: &str, mod_type: &ModType, enabled: bool) -> (r: Result<String, String>)
    ensures
        r matches Ok(p) ==> toggle_target(path@, enabled) == Ok::<Seq<char>, Seq<char>>(p@),
        r matches Err(e) ==> toggle_target(path@, enabled) == Err::<Seq<char>, Seq<char>>(e@),
{
    let pc = chars_of(path);
    if enabled {
        match strip_suffix_chars(pc.as_slice(), ".disabled") {
            Some(p) => Ok(string_of(p.as_slice())),
            None => {
                let mut e = owned("path does not end in .disabled: ");
                crate::text::append_str(&mut e, path);
                Err(e)
            },
        }
    } else {
        let mut p = owned(path);
        crate::text::append_str(&mut p, ".disabled");
        Ok(p)
    }
}

/// Disabling a mod and enabling it again brings back its path: enabling the disabled
/// path succeeds and gives the path the mod had.
pub proof fn law_disable_then_enable(path: Seq<char>)
    ensures
        toggle_target(path, false) == Ok::<Seq<char>, Seq<char>>(path + ".disabled"@),
        toggle_target(path + ".disabled"@, true) == Ok::<Seq<char>, Seq<char>>(path),
{
    let d = path + ".disabled"@;
    assert(d.subrange(d.len() - ".disabled"@.len(), d.len() as int) =~= ".disabled"@);
    assert(d.subrange(0, d.len() - ".disabled"@.len()) =~= path);
}

} // verus!
