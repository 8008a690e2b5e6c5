//! Placeholder glyphs: where no native icon subsystem is available, a
//! file extension is mapped, ASCII-case-insensitively, to one of a fixed
//! small set of glyph categories, each with its textual glyph.

use vstd::prelude::*;
use crate::text::eq_ignore_ascii_case;
use crate::text::str_eq_ignore_ascii_case;

verus! {

/// The fixed categories a file extension can fall in.
#[derive(Clone, Copy, Debug, PartialEq, Eq, Structural)]
pub enum IconCategory {
    /// Executables and installers (`exe`, `msi`).
    Executable,
    /// Plain documents (`txt`, `md`, `doc`, `docx`).
    Document,
    /// Portable documents (`pdf`).
    Pdf,
    /// Raster images (`jpg`, `jpeg`, `png`, `gif`, `bmp`).
    Image,
    /// Audio files (`mp3`, `wav`, `flac`, `aac`).
    Audio,
    /// Video files (`mp4`, `avi`, `mkv`, `mov`).
    Video,
    /// Archives (`zip`, `rar`, `7z`, `tar`).
    Archive,
    /// Web pages (`html`, `htm`).
    Web,
    /// Source code (`js`, `ts`, `py`, `rs`, `cpp`, `c`).
    SourceCode,
    /// Everything else, directories included.
    Folder,
}

/// The category an extension falls in, compared ASCII-case-insensitively
/// against the known extension lists.
pub open spec fn spec_icon_category(ext: Seq<char>) -> IconCategory {
    if eq_ignore_ascii_case(ext, "exe"@) || eq_ignore_ascii_case(ext, "msi"@) {
        IconCategory::Executable
    } else if eq_ignore_ascii_case(ext, "txt"@) || eq_ignore_ascii_case(ext, "md"@)
        || eq_ignore_ascii_case(ext, "doc"@) || eq_ignore_ascii_case(ext, "docx"@) {
        IconCategory::Document
    } else if eq_ignore_ascii_case(ext, "pdf"@) {
        IconCategory::Pdf
    } else if eq_ignore_ascii_case(ext, "jpg"@) || eq_ignore_ascii_case(ext, "jpeg"@)
        || eq_ignore_ascii_case(ext, "png"@) || eq_ignore_ascii_case(ext, "gif"@)
        || eq_ignore_ascii_case(ext, "bmp"@) {
        IconCategory::Image
    } else if eq_ignore_ascii_case(ext, "mp3"@) || eq_ignore_ascii_case(ext, "wav"@)
        || eq_ignore_ascii_case(ext, "flac"@) || eq_ignore_ascii_case(ext, "aac"@) {
        IconCategory::Audio
    } else if eq_ignore_ascii_case(ext, "mp4"@) || eq_ignore_ascii_case(ext, "avi"@)
        || eq_ignore_ascii_case(ext, "mkv"@) || eq_ignore_ascii_case(ext, "mov"@) {
        IconCategory::Video
    } else if eq_ignore_ascii_case(ext, "zip"@) || eq_ignore_ascii_case(ext, "rar"@)
        || eq_ignore_ascii_case(ext, "7z"@) || eq_ignore_ascii_case(ext, "tar"@) {
        IconCategory::Archive
    } else if eq_ignore_ascii_case(ext, "html"@) || eq_ignore_ascii_case(ext, "htm"@) {
        IconCategory::Web
    } else if eq_ignore_ascii_case(ext, "js"@) || eq_ignore_ascii_case(ext, "ts"@)
        || eq_ignore_ascii_case(ext, "py"@) || eq_ignore_ascii_case(ext, "rs"@)
        || eq_ignore_ascii_case(ext, "cpp"@) || eq_ignore_ascii_case(ext, "c"@) {
        IconCategory::SourceCode
    } else {
        IconCategory::Folder
    }
}

/// The glyph of each category.
pub open spec fn spec_glyph(c: IconCategory) -> Seq<char> {
    match c {
        IconCategory::Executable => "⚙️"@,
        IconCategory::Document => "📄"@,
        IconCategory::Pdf => "📕"@,
        IconCategory::Image => "🖼️"@,
        IconCategory::Audio => "🎵"@,
        IconCategory::Video => "🎬"@,
        IconCategory::Archive => "📦"@,
        IconCategory::Web => "🌐"@,
        IconCategory::SourceCode => "💻"@,
        IconCategory::Folder => "📁"@,
    }
}

/// Classifies a file extension, ASCII-case-insensitively, into its
/// placeholder category.
pub fn icon_category_for_extension(extension: &str) -> (c: IconCategory)
    ensures
        c == spec_icon_category(extension@),
{
    if str_eq_ignore_ascii_case(extension, "exe") || str_eq_ignore_ascii_case(extension, "msi") {
        IconCategory::Executable
    } else if str_eq_ignore_ascii_case(extension, "txt") || str_eq_ignore_ascii_case(
        extension,
        "md",
    ) || str_eq_ignore_ascii_case(extension, "doc") || str_eq_ignore_ascii_case(
        extension,
        "docx",
    ) {
        IconCategory::Document
    } else if str_eq_ignore_ascii_case(extension, "pdf") {
        IconCategory::Pdf
    } else if str_eq_ignore_ascii_case(extension, "jpg") || str_eq_ignore_ascii_case(
        extension,
        "jpeg",
    ) || str_eq_ignore_ascii_case(extension, "png") || str_eq_ignore_ascii_case(extension, "gif")
        || str_eq_ignore_ascii_case(extension, "bmp") {
        IconCategory::Image
    } else if str_eq_ignore_ascii_case(extension, "mp3") || str_eq_ignore_ascii_case(
        extension,
        "wav",
    ) || str_eq_ignore_ascii_case(extension, "flac") || str_eq_ignore_ascii_case(
        extension,
        "aac",
    ) {
        IconCategory::Audio
    } else if str_eq_ignore_ascii_case(extension, "mp4") || str_eq_ignore_ascii_case(
        extension,
        "avi",
    ) || str_eq_ignore_ascii_case(extension, "mkv") || str_eq_ignore_ascii_case(
        extension,
        "mov",
    ) {
        IconCategory::Video
    } else if str_eq_ignore_ascii_case(extension, "zip") || str_eq_ignore_ascii_case(
        extension,
        "rar",
    ) || str_eq_ignore_ascii_case(extension, "7z") || str_eq_ignore_ascii_case(extension, "tar") {
        IconCategory::Archive
    } else if str_eq_ignore_ascii_case(extension, "html") || str_eq_ignore_ascii_case(
        extension,
        "htm",
    ) {
        IconCategory::Web
    } else if str_eq_ignore_ascii_case(extension, "js") || str_eq_ignore_ascii_case(
        extension,
        "ts",
    ) || str_eq_ignore_ascii_case(extension, "py") || str_eq_ignore_ascii_case(extension, "rs")
        || str_eq_ignore_ascii_case(extension, "cpp") || str_eq_ignore_ascii_case(
        extension,
        "c",
    ) {
        IconCategory::SourceCode
    } else {
        IconCategory::Folder
    }
}

/// The textual glyph of a category.
pub fn glyph_for_category(c: IconCategory) -> (r: &'static str)
    ensures
        r@ == spec_glyph(c),
{
    match c {
        IconCategory::Executable => "⚙️",
        IconCategory::Document => "📄",
        IconCategory::Pdf => "📕",
        IconCategory::Image => "🖼️",
        IconCategory::Audio => "🎵",
        IconCategory::Video => "🎬",
        IconCategory::Archive => "📦",
        IconCategory::Web => "🌐",
        IconCategory::SourceCode => "💻",
        IconCategory::Folder => "📁",
    }
}

/// The placeholder glyph an extension maps to.
pub fn get_default_icon_for_extension(extension: &str) -> (r: &'static str)
    ensures
        r@ == spec_glyph(spec_icon_category(extension@)),
{
    glyph_for_category(icon_category_for_extension(extension))
}

/// The placeholder mapping is insensitive to ASCII case: two extensions
/// equal up to ASCII case fall in the same category, so they always get
/// the same glyph.
pub proof fn lemma_category_case_insensitive(a: Seq<char>, b: Seq<char>)
    requires
        eq_ignore_ascii_case(a, b),
    ensures
        spec_icon_category(a) == spec_icon_category(b),
{
}

} // verus!
