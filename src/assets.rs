use vstd::prelude::*;
use vstd::string::StringExecFns;

verus! {

/// What the loader reports of an asset.
#[derive(Debug, Clone)]
pub struct AssetInfo {
    /// Absolute path of the cached file.
    pub path: String,
    /// Whether it came from the cache rather than a download.
    pub cached: bool,
    /// Display name of the asset's type.
    pub asset_type: String,
}

/// The kinds of asset the loader keeps.
#[derive(Debug, Clone)]
pub enum AssetType {
    Image,
    Video,
    Audio,
    Document,
    /// Any other kind, with its file extension.
    Other(String),
}

/// The file extension of an asset type.
pub open spec fn extension_of(t: AssetType) -> Seq<char> {
    match t {
        AssetType::Image => "jpg"@,
        AssetType::Video => "mp4"@,
        AssetType::Audio => "mp3"@,
        AssetType::Document => "pdf"@,
        AssetType::Other(ext) => ext@,
    }
}

/// The cache subdirectory of an asset type.
pub open spec fn subdirectory_of(t: AssetType) -> Seq<char> {
    match t {
        AssetType::Image => "images"@,
        AssetType::Video => "videos"@,
        AssetType::Audio => "audio"@,
        AssetType::Document => "documents"@,
        AssetType::Other(_) => "other"@,
    }
}

/// The display name of an asset type.
pub open spec fn display_name_of(t: AssetType) -> Seq<char> {
    match t {
        AssetType::Image => "Image"@,
        AssetType::Video => "Video"@,
        AssetType::Audio => "Audio"@,
        AssetType::Document => "Document"@,
        AssetType::Other(ext) => "Other("@ + ext@ + ")"@,
    }
}

impl AssetType {
    /// The file extension used for cached files of this type.
    pub fn extension(&self) -> (r: &str)
        ensures
            r@ == extension_of(*self),
    {
        match self {
            AssetType::Image => "jpg",
            AssetType::Video => "mp4",
            AssetType::Audio => "mp3",
            AssetType::Document => "pdf",
            AssetType::Other(ext) => ext.as_str(),
        }
    }

    /// The cache subdirectory for this type.
    pub fn subdirectory(&self) -> (r: &str)
        ensures
            r@ == subdirectory_of(*self),
    {
        match self {
            AssetType::Image => "images",
            AssetType::Video => "videos",
            AssetType::Audio => "audio",
            AssetType::Document => "documents",
            AssetType::Other(_) => "other",
        }
    }

    /// A name for display.
    pub fn display_name(&self) -> (r: String)
        ensures
            r@ == display_name_of(*self),
    {
        match self {
            AssetType::Image => String::from_str("Image"),
            AssetType::Video => String::from_str("Video"),
            AssetType::Audio => String::from_str("Audio"),
            AssetType::Document => String::from_str("Document"),
            AssetType::Other(ext) => String::from_str("Other(").concat(ext.as_str()).concat(")"),
        }
    }
}

/// A hexadecimal digit, lower case.
pub open spec fn hex_digit(d: nat) -> char {
    if d < 10 {
        ('0' as nat + d) as char
    } else {
        ('a' as nat + (d - 10)) as char
    }
}

/// `n` in lower-case hexadecimal, without leading zeros.
pub open spec fn hex_digits(n: nat) -> Seq<char>
    decreases n,
{
    if n < 16 {
        seq![hex_digit(n)]
    } else {
        hex_digits(n / 16).push(hex_digit(n % 16))
    }
}

/// What `std::hash::Hash` for `str`, fed to a `DefaultHasher::new()`, finishes with.
pub uninterp spec fn url_hash(s: Seq<char>) -> u64;

/// Relies on `DefaultHasher::new` and `str`'s `Hash`: every hasher made by `new` is the same, so
/// the result depends on the string alone.
#[verifier::external_body]
fn hash_url(url: &str) -> (r: u64)
    ensures
        r == url_hash(url@),
{
    let mut hasher = std::collections::hash_map::DefaultHasher::new();
    std::hash::Hash::hash(url, &mut hasher);
    std::hash::Hasher::finish(&hasher)
}

/// Relies on `format!` with `{:x}`: lower-case hexadecimal digits without leading zeros.
#[verifier::external_body]
fn hex_of(v: u64) -> (r: String)
    ensures
        r@ == hex_digits(v as nat),
{
    format!("{:x}", v)
}

/// The cache file name for a URL whose hash is `hash`: the hash in hexadecimal, a dot and the
/// type's extension.
pub fn cache_file_name(hash: u64, asset_type: &AssetType) -> (r: String)
    ensures
        r@ == hex_digits(hash as nat) + "."@ + extension_of(*asset_type),
{
    hex_of(hash).concat(".").concat(asset_type.extension())
}

/// The cache file name for a URL.
pub fn url_to_filename(url: &str, asset_type: &AssetType) -> (r: String)
    ensures
        r@ == hex_digits(url_hash(url@) as nat) + "."@ + extension_of(*asset_type),
{
    cache_file_name(hash_url(url), asset_type)
}

} // verus!
