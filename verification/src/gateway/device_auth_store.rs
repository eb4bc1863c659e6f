//! The tokens that the gateway has given to the device, by role.

use vstd::prelude::*;

use crate::config;
use crate::config::normalize_scopes;
use crate::sorted_map::SortedMap;
use crate::text;

verus! {

/// A token of the device.
#[derive(Debug, Clone)]
pub struct DeviceAuthEntry {
    pub token: String,
    pub role: String,
    pub scopes: Vec<String>,
    pub updated_at_ms: u64,
}

pub struct EntryView {
    pub token: Seq<char>,
    pub role: Seq<char>,
    pub scopes: Seq<Seq<char>>,
    pub updated_at_ms: u64,
}

impl View for DeviceAuthEntry {
    type V = EntryView;

    open spec fn view(&self) -> EntryView {
        EntryView {
            token: self.token@,
            role: self.role@,
            scopes: text::texts(self.scopes@),
            updated_at_ms: self.updated_at_ms,
        }
    }
}

pub open spec fn opt_entry(entry: Option<DeviceAuthEntry>) -> Option<EntryView> {
    match entry {
        Some(e) => Some(e@),
        None => None,
    }
}

/// The file in which the tokens are kept.
#[derive(Debug)]
pub struct DeviceAuthFile {
    pub version: u8,
    pub device_id: String,
    pub tokens: SortedMap<DeviceAuthEntry>,
}

pub struct AuthFileView {
    pub version: u8,
    pub device_id: Seq<char>,
    pub tokens: Map<Seq<char>, EntryView>,
}

impl View for DeviceAuthFile {
    type V = AuthFileView;

    open spec fn view(&self) -> AuthFileView {
        AuthFileView {
            version: self.version,
            device_id: self.device_id@,
            tokens: self.tokens@.map_values(|e: DeviceAuthEntry| e@),
        }
    }
}

impl DeviceAuthFile {
    pub open spec fn wf(&self) -> bool {
        self.tokens.wf()
    }

    /// A file without tokens.
    pub fn blank(device_id: &str) -> (file: Self)
        ensures
            file.wf(),
            file@ == blank_file(device_id@),
    {
        let file = DeviceAuthFile {
            version: 1,
            device_id: device_id.to_owned(),
            tokens: SortedMap::new(),
        };
        assert(file@.tokens =~= Map::<Seq<char>, EntryView>::empty());
        file
    }
}

/// A file without tokens.
pub open spec fn blank_file(device_id: Seq<char>) -> AuthFileView {
    AuthFileView { version: 1, device_id, tokens: Map::empty() }
}

/// The token of a device for a role.
pub open spec fn token_in(file: AuthFileView, device_id: Seq<char>, role: Seq<char>) -> Option<
    EntryView,
> {
    if file.device_id == device_id && file.tokens.dom().contains(role) {
        Some(file.tokens[role])
    } else {
        None
    }
}

/// The file after a token has been stored: it is the device's from now on.
pub open spec fn file_with_token(
    file: AuthFileView,
    device_id: Seq<char>,
    role: Seq<char>,
    entry: EntryView,
) -> AuthFileView {
    AuthFileView { device_id, tokens: file.tokens.insert(role, entry), ..file }
}

/// The file after a token has been cleared; that of another device stays as it is.
pub open spec fn file_without_token(
    file: AuthFileView,
    device_id: Seq<char>,
    role: Seq<char>,
) -> AuthFileView {
    if file.device_id == device_id {
        AuthFileView { tokens: file.tokens.remove(role), ..file }
    } else {
        file
    }
}

/// The token of a device for a role.
pub fn load_token(file: &DeviceAuthFile, device_id: &str, role: &str) -> (found: Option<
    DeviceAuthEntry,
>)
    requires
        file.wf(),
    ensures
        opt_entry(found) == token_in(file@, device_id@, role@),
{
    if !text::same_text(file.device_id.as_str(), device_id) {
        return None;
    }
    match file.tokens.get(role) {
        Some(e) => Some(
            DeviceAuthEntry {
                token: e.token.clone(),
                role: e.role.clone(),
                scopes: text::copy_list(&e.scopes),
                updated_at_ms: e.updated_at_ms,
            },
        ),
        None => None,
    }
}

/// Stores a token of a device for a role.
pub fn store_token(
    file: &mut DeviceAuthFile,
    device_id: &str,
    role: &str,
    token: &str,
    scopes: &Vec<String>,
    now_ms: u64,
)
    requires
        old(file).wf(),
    ensures
        final(file).wf(),
        exists|kept: Seq<Seq<char>>|
            #![trigger text::ascending(kept)]
            text::ascending(kept) && (forall|scope: Seq<char>|
                kept.contains(scope) <==> config::scope_given(text::texts(scopes@), scope))
                && final(file)@ == file_with_token(
                old(file)@,
                device_id@,
                role@,
                (EntryView { token: token@, role: role@, scopes: kept, updated_at_ms: now_ms }),
            ),
{
    let kept = normalize_scopes(scopes);
    let ghost scopes_kept = text::texts(kept@);
    let entry = DeviceAuthEntry {
        token: token.to_owned(),
        role: role.to_owned(),
        scopes: kept,
        updated_at_ms: now_ms,
    };
    file.device_id = device_id.to_owned();
    file.tokens.insert(role.to_owned(), entry);
    assert(file@.tokens =~= old(file)@.tokens.insert(role@, entry@));
    assert(text::ascending(scopes_kept));
}

/// Clears the token of a device for a role.
pub fn clear_token(file: &mut DeviceAuthFile, device_id: &str, role: &str)
    requires
        old(file).wf(),
    ensures
        final(file).wf(),
        final(file)@ == file_without_token(old(file)@, device_id@, role@),
{
    if !text::same_text(file.device_id.as_str(), device_id) {
        return;
    }
    let _ = file.tokens.remove(role);
    assert(file@.tokens =~= old(file)@.tokens.remove(role@));
}

/// What is loaded for a role is what was stored for it last; other roles keep what they had, as far
/// as the file was the device's before.
pub proof fn law_stored_token_is_loaded(
    file: AuthFileView,
    device_id: Seq<char>,
    role: Seq<char>,
    entry: EntryView,
    other_role: Seq<char>,
)
    requires
        other_role != role,
    ensures
        token_in(file_with_token(file, device_id, role, entry), device_id, role) == Some(entry),
        file.device_id == device_id ==> token_in(
            file_with_token(file, device_id, role, entry),
            device_id,
            other_role,
        ) == token_in(file, device_id, other_role),
{
}

/// A token that has been cleared is not loaded, and the tokens of other roles are.
pub proof fn law_cleared_token_is_gone(
    file: AuthFileView,
    device_id: Seq<char>,
    role: Seq<char>,
    other_role: Seq<char>,
)
    requires
        other_role != role,
    ensures
        token_in(file_without_token(file, device_id, role), device_id, role) is None,
        token_in(file_without_token(file, device_id, role), device_id, other_role) == token_in(
            file,
            device_id,
            other_role,
        ),
{
}

/// Tokens belong to one device: none is loaded for another, and clearing one of another changes
/// nothing. A new file has none.
pub proof fn law_tokens_belong_to_their_device(
    file: AuthFileView,
    device_id: Seq<char>,
    role: Seq<char>,
)
    ensures
        file.device_id != device_id ==> token_in(file, device_id, role) is None
            && file_without_token(file, device_id, role) == file,
        file.device_id == device_id && file.tokens.dom().contains(role) ==> token_in(
            file,
            device_id,
            role,
        ) == Some(file.tokens[role]),
        token_in(blank_file(device_id), device_id, role) is None,
        blank_file(device_id).device_id == device_id,
{
}

} // verus!
