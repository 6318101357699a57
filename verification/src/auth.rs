use vstd::prelude::*;
use vstd::utf8::{decode_utf8, encode_utf8, valid_utf8};

use crate::codec::{base64_decode, base64_standard_decoding, utf8_string};
use crate::nexusmods::mod_page_url;
use crate::text::{
    append_chars, chars_of, decimal, has_prefix_str, opt_view, owned, replace_char,
    replace_chars, starts_with, string_of, strip_prefix, strip_prefix_chars, string_views,
};

verus! {

// ── Download links through the signed-in browser session ──────────────

/// A mod whose download link the signed-in browser session is asked for.
pub struct AuthModInfo {
    pub mod_id: u64,
    pub file_id: u64,
    pub game_domain: String,
    pub name: String,
    pub version: String,
}

/// The game whose numeric id the session needs: that of the first mod, else
/// Cyberpunk 2077.
pub open spec fn auth_domain(mods: Seq<AuthModInfo>) -> Seq<char> {
    if mods.len() > 0 {
        mods[0].game_domain@
    } else {
        "cyberpunk2077"@
    }
}

/// The game domain to look the game id up by.
pub fn auth_game_domain(mods: &Vec<AuthModInfo>) -> (r: String)
    ensures
        r@ == auth_domain(mods@),
{
    if mods.len() > 0 {
        owned(mods[0].game_domain.as_str())
    } else {
        owned("cyberpunk2077")
    }
}

/// The page the session starts on: that of the first mod.
pub fn auth_start_url(mods: &Vec<AuthModInfo>) -> (r: Result<String, String>)
    ensures
        r is Err <==> mods@.len() == 0,
        r matches Err(e) ==> e@ == "no mods provided"@,
        r matches Ok(u) ==> u@ == "https://www.nexusmods.com/"@ + mods@[0].game_domain@
            + "/mods/"@ + decimal(mods@[0].mod_id as nat),
{
    if mods.len() == 0 {
        return Err(owned("no mods provided"));
    }
    Ok(mod_page_url(mods[0].game_domain.as_str(), mods[0].mod_id))
}

/// Why the results written into the page fragment could not be read.
#[derive(Debug, Clone, Copy, PartialEq, Eq, Structural)]
pub enum AuthDecodeError {
    /// The text is not standard base64.
    Base64,
    /// The decoded bytes are not UTF-8.
    Utf8,
}

/// URL-safe base64 without padding turned into standard base64 with padding: `-` and
/// `_` become `+` and `/`, and `=` fills the UTF-8 length up to a multiple of four.
pub open spec fn padded_standard_base64(b: Seq<char>) -> Seq<char> {
    let std = replace_char(replace_char(b, '-', '+'), '_', '/');
    let pad = (4 - encode_utf8(std).len() % 4) % 4;
    std + Seq::new(pad as nat, |i: int| '=')
}

/// What the fragment `lmm-results:{payload}` carries: none without that prefix, else
/// the JSON text that the payload encodes, or why it could not be decoded.
pub open spec fn auth_results(fragment: Seq<char>) -> Option<Result<Seq<char>, AuthDecodeError>> {
    match strip_prefix(fragment, "lmm-results:"@) {
        None => None,
        Some(b) => match base64_standard_decoding(padded_standard_base64(b)) {
            None => Some(Err(AuthDecodeError::Base64)),
            Some(bytes) => if valid_utf8(bytes) {
                Some(Ok(decode_utf8(bytes)))
            } else {
                Some(Err(AuthDecodeError::Utf8))
            },
        },
    }
}

/// Reads the results that the session wrote into the page fragment.
pub fn auth_results_json(fragment: &str) -> (r: Option<Result<String, AuthDecodeError>>)
    ensures
        match r {
            None => auth_results(fragment@) is None,
            Some(Ok(json)) => auth_results(fragment@) == Some(
                Ok::<Seq<char>, AuthDecodeError>(json@),
            ),
            Some(Err(e)) => auth_results(fragment@) == Some(Err::<Seq<char>, AuthDecodeError>(e)),
        },
{
    let fc = chars_of(fragment);
    let b = match strip_prefix_chars(fc.as_slice(), "lmm-results:") {
        Some(b) => b,
        None => {
            return None;
        },
    };
    let plus = replace_chars(b.as_slice(), '-', '+');
    let std = replace_chars(plus.as_slice(), '_', '/');
    let mut padded = string_of(std.as_slice());
    let byte_len = padded.as_str().as_bytes().len();
    let pad = (4 - byte_len % 4) % 4;
    let ghost base = padded@;
    let mut k: usize = 0;
    while k < pad
        invariant
            pad <= 3,
            k <= pad,
            padded@ == base + Seq::new(k as nat, |i: int| '='),
        decreases pad - k,
    {
        let ghost before = padded@;
        crate::text::push_char(&mut padded, '=');
        assert(padded@ =~= base + Seq::new((k + 1) as nat, |i: int| '='));
        k = k + 1;
    }
    proof {
        assert(padded@ == padded_standard_base64(b@));
    }
    match base64_decode(padded.as_str()) {
        None => Some(Err(AuthDecodeError::Base64)),
        Some(bytes) => match utf8_string(bytes) {
            Some(json) => Some(Ok(json)),
            None => Some(Err(AuthDecodeError::Utf8)),
        },
    }
}

// ── Sign-in window ────────────────────────────────────────────────────

/// What one look at the sign-in window's address decides.
pub enum LoginPoll {
    /// The user is not signed in yet: look again later.
    Wait,
    /// Signed in, but the user name is not in the fragment yet: have the page write it
    /// there, and look again later.
    ExtractUsername,
    /// Signed in, with the user name the page found (none when it found none).
    Complete(Option<String>),
}

/// A page of the accounts site outside its sign-in flow: the user is signed in.
pub open spec fn signed_in_page(host: Seq<char>, path: Seq<char>) -> bool {
    host == "users.nexusmods.com"@ && !starts_with(path, "/auth/"@)
}

/// The user name carried by the fragment `lmm-user:{name}`: none when it is empty.
pub open spec fn fragment_username(raw: Seq<char>) -> Option<Seq<char>> {
    if raw.len() == 0 {
        None
    } else {
        Some(raw)
    }
}

/// Decides on the sign-in window's current address (host and fragment empty where the
/// address has none).
pub fn login_poll(host: &str, path: &str, fragment: &str) -> (r: LoginPoll)
    ensures
        !signed_in_page(host@, path@) ==> r is Wait,
        signed_in_page(host@, path@) && strip_prefix(fragment@, "lmm-user:"@) is None
            ==> r is ExtractUsername,
        signed_in_page(host@, path@) ==> match strip_prefix(fragment@, "lmm-user:"@) {
            Some(raw) => r matches LoginPoll::Complete(u) && opt_view(u) == fragment_username(
                raw,
            ),
            None => r is ExtractUsername,
        },
{
    let hc = chars_of(host);
    let pc = chars_of(path);
    let on_accounts = crate::text::chars_eq_str(hc.as_slice(), "users.nexusmods.com");
    if !on_accounts || has_prefix_str(pc.as_slice(), "/auth/") {
        return LoginPoll::Wait;
    }
    let fc = chars_of(fragment);
    match strip_prefix_chars(fc.as_slice(), "lmm-user:") {
        Some(raw) => {
            if raw.len() == 0 {
                LoginPoll::Complete(None)
            } else {
                LoginPoll::Complete(Some(string_of(raw.as_slice())))
            }
        },
        None => LoginPoll::ExtractUsername,
    }
}

// ── Deep links ────────────────────────────────────────────────────────

/// The first argument of a second launch that is an NXM link, if any.
pub fn nxm_link_in_args(args: &Vec<String>) -> (r: Option<String>)
    ensures
        match r {
            Some(a) => exists|i: int|
                0 <= i < args@.len() && a@ == args@[i]@ && starts_with(args@[i]@, "nxm://"@)
                    && forall|j: int| 0 <= j < i ==> !starts_with(#[trigger] args@[j]@, "nxm://"@),
            None => forall|i: int| 0 <= i < args@.len() ==> !starts_with(#[trigger] args@[i]@, "nxm://"@),
        },
{
    let n = args.len();
    let mut i: usize = 0;
    while i < n
        invariant
            n == args@.len(),
            i <= n,
            forall|j: int| 0 <= j < i ==> !starts_with(#[trigger] args@[j]@, "nxm://"@),
        decreases n - i,
    {
        if has_prefix_str(chars_of(args[i].as_str()).as_slice(), "nxm://") {
            return Some(owned(args[i].as_str()));
        }
        i = i + 1;
    }
    None
}

} // verus!
