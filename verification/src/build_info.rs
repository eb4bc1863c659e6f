//! What is known of the build of the daemon.

use vstd::prelude::*;

use crate::crypto;
use crate::crypto::sha256;
use crate::text;

verus! {

pub const PACKAGE_NAME: &'static str = "subspace-daemon";

pub const PACKAGE_VERSION: &'static str = "0.1.0";

/// The word for what a build does not say of itself.
pub const UNKNOWN: &'static str = "unknown";

/// What the build has recorded of itself.
#[derive(Debug, Clone)]
pub struct BuildStamp {
    pub source_commit: Option<String>,
    pub build_timestamp: Option<String>,
    pub target: Option<String>,
    pub profile: Option<String>,
}

#[derive(Debug, Clone)]
pub struct BuildInfo {
    pub package: String,
    pub version: String,
    pub source_commit: String,
    pub build_timestamp: String,
    pub target: String,
    pub profile: String,
    pub binary_hash: Option<String>,
}

pub open spec fn or_unknown(value: Option<String>) -> Seq<char> {
    match value {
        Some(s) => s@,
        None => UNKNOWN@,
    }
}

fn text_or_unknown(value: &Option<String>) -> (s: String)
    ensures
        s@ == or_unknown(*value),
{
    match value {
        Some(s) => s.clone(),
        None => UNKNOWN.to_owned(),
    }
}

/// What is known of the running build.
pub fn current(binary_hash: Option<String>, stamp: &BuildStamp) -> (info: BuildInfo)
    ensures
        info.package@ == PACKAGE_NAME@,
        info.version@ == PACKAGE_VERSION@,
        info.source_commit@ == or_unknown(stamp.source_commit),
        info.build_timestamp@ == or_unknown(stamp.build_timestamp),
        info.target@ == or_unknown(stamp.target),
        info.profile@ == or_unknown(stamp.profile),
        info.binary_hash == binary_hash,
{
    BuildInfo {
        package: PACKAGE_NAME.to_owned(),
        version: PACKAGE_VERSION.to_owned(),
        source_commit: text_or_unknown(&stamp.source_commit),
        build_timestamp: text_or_unknown(&stamp.build_timestamp),
        target: text_or_unknown(&stamp.target),
        profile: text_or_unknown(&stamp.profile),
        binary_hash,
    }
}

/// The digest by which a binary is told from others.
pub open spec fn binary_digest(bytes: Seq<u8>) -> Seq<char> {
    "sha256:"@ + text::hex_lower(crypto::sha256_digest(bytes))
}

/// The digest by which a binary is told from others.
pub fn binary_sha256(bytes: &[u8]) -> (hash: String)
    ensures
        hash@ == binary_digest(bytes@),
{
    let mut hash = "sha256:".to_owned();
    hash.append(text::hex_lower_text(sha256(bytes).as_slice()).as_str());
    hash
}

/// What was stamped into the build is told, and what was not is unknown.
pub proof fn law_stamp_is_told(value: String, bytes: Seq<u8>)
    ensures
        or_unknown(Some(value)) == value@,
        or_unknown(None) == "unknown"@,
        "sha256:"@.is_prefix_of(binary_digest(bytes)),
        text::hex_lower(crypto::sha256_digest(bytes)).is_suffix_of(binary_digest(bytes)),
{
    let digest = text::hex_lower(crypto::sha256_digest(bytes));
    let told = binary_digest(bytes);
    assert(told.take("sha256:"@.len() as int) =~= "sha256:"@);
    assert(told.skip(told.len() - digest.len()) =~= digest);
}

} // verus!
