//! The icon extraction pipeline over probed path state, as it runs where
//! no native icon subsystem is available: the path's extension selects a
//! placeholder glyph, which ships base64-encoded. Path validation and
//! existence checks answer from the caller's probe snapshot.

use vstd::prelude::*;
use vstd::utf8::encode_utf8;
use crate::encode::base64_encode;
use crate::encode::base64_of_str;
use crate::model::IconResult;
use crate::model::PathProbe;
use crate::placeholder::IconCategory;
use crate::placeholder::get_default_icon_for_extension;
use crate::placeholder::glyph_for_category;
use crate::placeholder::spec_glyph;
use crate::placeholder::spec_icon_category;
use crate::text::is_ascii_alpha;

verus! {

/// A path separator.
pub open spec fn is_path_sep(c: char) -> bool {
    c == '/' || c == '\\'
}

/// The position where the final path component starts: right after the
/// last separator, or zero when there is none.
pub open spec fn file_name_start(s: Seq<char>) -> int
    decreases s.len(),
{
    if s.len() == 0 {
        0
    } else if is_path_sep(s[s.len() - 1]) {
        s.len() as int
    } else {
        file_name_start(s.drop_last())
    }
}

/// The position of the last `.`, or minus one when there is none.
pub open spec fn last_dot(s: Seq<char>) -> int
    decreases s.len(),
{
    if s.len() == 0 {
        -1
    } else if s[s.len() - 1] == '.' {
        s.len() - 1
    } else {
        last_dot(s.drop_last())
    }
}

/// The extension of a path: what follows the last `.` of the final path
/// component, provided that dot is not the component's first character.
pub open spec fn spec_path_extension(s: Seq<char>) -> Option<Seq<char>> {
    let start = file_name_start(s);
    let d = last_dot(s);
    if d > start {
        Option::Some(s.subrange(d + 1, s.len() as int))
    } else {
        Option::None
    }
}

/// The extension, or the empty sequence for a path without one.
pub open spec fn extension_or_empty(s: Seq<char>) -> Seq<char> {
    match spec_path_extension(s) {
        Option::Some(e) => e,
        Option::None => Seq::empty(),
    }
}

/// The position where the final component of `path` starts.
fn find_file_name_start(path: &str) -> (r: usize)
    ensures
        r == file_name_start(path@),
        r <= path@.len(),
{
    let n = path.unicode_len();
    proof {
        assert(path@.subrange(0, n as int) =~= path@);
    }
    let mut i: usize = n;
    loop
        invariant
            n == path@.len(),
            i <= n,
            file_name_start(path@) == file_name_start(path@.subrange(0, i as int)),
        ensures
            i <= n,
            i == file_name_start(path@),
        decreases i,
    {
        if i == 0 {
            proof {
                assert(path@.subrange(0, 0) =~= Seq::<char>::empty());
            }
            break ;
        }
        let c = path.get_char(i - 1);
        proof {
            assert(path@.subrange(0, i as int).last() == path@[i - 1]);
        }
        if c == '/' || c == '\\' {
            break ;
        }
        proof {
            assert(path@.subrange(0, i as int).drop_last() =~= path@.subrange(0, i - 1));
        }
        i = i - 1;
    }
    i
}

/// The position right after the last `.` of `path`, or zero when there
/// is no dot.
fn find_after_last_dot(path: &str) -> (r: usize)
    ensures
        r == last_dot(path@) + 1,
        r <= path@.len(),
{
    let n = path.unicode_len();
    proof {
        assert(path@.subrange(0, n as int) =~= path@);
    }
    let mut i: usize = n;
    loop
        invariant
            n == path@.len(),
            i <= n,
            last_dot(path@) == last_dot(path@.subrange(0, i as int)),
        ensures
            i <= n,
            i == last_dot(path@) + 1,
        decreases i,
    {
        if i == 0 {
            proof {
                assert(path@.subrange(0, 0) =~= Seq::<char>::empty());
            }
            break ;
        }
        let c = path.get_char(i - 1);
        proof {
            assert(path@.subrange(0, i as int).last() == path@[i - 1]);
        }
        if c == '.' {
            break ;
        }
        proof {
            assert(path@.subrange(0, i as int).drop_last() =~= path@.subrange(0, i - 1));
        }
        i = i - 1;
    }
    i
}

/// The extension of a path, when it has one: what follows the last `.`
/// of the final path component, provided that dot does not start the
/// component.
pub fn path_extension(path: &str) -> (r: Option<String>)
    ensures
        r is Some <==> spec_path_extension(path@) is Some,
        r matches Some(e) ==> e@ == extension_or_empty(path@),
{
    let n = path.unicode_len();
    let start = find_file_name_start(path);
    let after_dot = find_after_last_dot(path);
    if after_dot >= 1 && after_dot - 1 > start {
        let ext = path.substring_char(after_dot, n);
        Some(String::from_str(ext))
    } else {
        None
    }
}

/// The outcome the placeholder pipeline owes for a file at `path` whose
/// probe reported existence `exists`: an error for a missing path, else
/// the base64 of the extension's glyph, tagged as text and not cached.
pub open spec fn file_icon_spec(
    path: Seq<char>,
    exists: bool,
    r: Result<IconResult, String>,
) -> bool {
    if exists {
        &&& r matches Ok(res)
        &&& res.icon_data@ == base64_encode(
            encode_utf8(spec_glyph(spec_icon_category(extension_or_empty(path)))),
        )
        &&& res.icon_format@ == "text"@
        &&& res.from_cache == false
        &&& res.file_hash is None
    } else {
        r matches Err(e) && e@ == "File does not exist"@
    }
}

/// The outcome owed for a directory: an error unless the probe saw an
/// existing directory, else the base64 of the folder glyph, tagged as
/// text and not cached.
pub open spec fn dir_icon_spec(exists_dir: bool, r: Result<IconResult, String>) -> bool {
    if exists_dir {
        &&& r matches Ok(res)
        &&& res.icon_data@ == base64_encode(encode_utf8(spec_glyph(IconCategory::Folder)))
        &&& res.icon_format@ == "text"@
        &&& res.from_cache == false
        &&& res.file_hash is None
    } else {
        r matches Err(e) && e@ == "Directory does not exist"@
    }
}

/// Extracts the icon of a file: the placeholder glyph keyed by its
/// extension, base64-encoded. Fails only when the probe saw no file.
/// The size hint plays no part for placeholder glyphs.
pub fn extract_file_icon(file_path: &str, large_icon: bool, probe: &PathProbe) -> (r: Result<
    IconResult,
    String,
>)
    ensures
        file_icon_spec(file_path@, probe.exists, r),
{
    if !probe.exists {
        return Err(String::from_str("File does not exist"));
    }
    let ext = match path_extension(file_path) {
        Option::Some(e) => e,
        Option::None => String::new(),
    };
    proof {
        assert(ext@ == extension_or_empty(file_path@));
    }
    let glyph = get_default_icon_for_extension(ext.as_str());
    let icon_data = base64_of_str(glyph);
    Ok(
        IconResult {
            icon_data,
            icon_format: String::from_str("text"),
            from_cache: false,
            file_hash: None,
        },
    )
}

/// Extracts the icon of a directory: the folder glyph, base64-encoded.
/// Fails unless the probe saw an existing directory.
pub fn extract_directory_icon(dir_path: &str, large_icon: bool, probe: &PathProbe) -> (r: Result<
    IconResult,
    String,
>)
    ensures
        dir_icon_spec(probe.exists && probe.is_dir, r),
{
    if !probe.exists || !probe.is_dir {
        return Err(String::from_str("Directory does not exist"));
    }
    let glyph = glyph_for_category(IconCategory::Folder);
    let icon_data = base64_of_str(glyph);
    Ok(
        IconResult {
            icon_data,
            icon_format: String::from_str("text"),
            from_cache: false,
            file_hash: None,
        },
    )
}

/// Extracts icons for many paths at once, pairing each path with its
/// own outcome: the directory pipeline where its probe saw a directory,
/// else the file pipeline.
pub fn extract_icons_batch(file_paths: Vec<String>, large_icon: bool, probes: Vec<PathProbe>) -> (r:
    Vec<(String, Result<IconResult, String>)>)
    requires
        probes@.len() == file_paths@.len(),
    ensures
        r@.len() == file_paths@.len(),
        forall|i: int|
            0 <= i < r@.len() ==> (#[trigger] r@[i]).0 == file_paths@[i] && if probes@[i].is_dir {
                dir_icon_spec(probes@[i].exists && probes@[i].is_dir, r@[i].1)
            } else {
                file_icon_spec(file_paths@[i]@, probes@[i].exists, r@[i].1)
            },
{
    let n = file_paths.len();
    let mut paths = file_paths;
    let mut out: Vec<(String, Result<IconResult, String>)> = Vec::new();
    while out.len() < n
        invariant
            n == file_paths@.len(),
            probes@.len() == n,
            out@.len() + paths@.len() == n,
            forall|j: int|
                0 <= j < paths@.len() ==> #[trigger] paths@[j] == file_paths@[out@.len() + j],
            forall|i: int|
                0 <= i < out@.len() ==> (#[trigger] out@[i]).0 == file_paths@[i] && if probes@[
                    i].is_dir {
                    dir_icon_spec(probes@[i].exists && probes@[i].is_dir, out@[i].1)
                } else {
                    file_icon_spec(file_paths@[i]@, probes@[i].exists, out@[i].1)
                },
        decreases n - out@.len(),
    {
        let idx = out.len();
        let ghost pre_paths = paths@;
        let path = paths.remove(0);
        proof {
            pre_paths.remove_ensures(0);
        }
        let probe = probes[idx];
        let result = if probe.is_dir {
            extract_directory_icon(path.as_str(), large_icon, &probe)
        } else {
            extract_file_icon(path.as_str(), large_icon, &probe)
        };
        out.push((path, result));
    }
    out
}

/// Has some position holding character `c`.
pub open spec fn contains_char(s: Seq<char>, c: char) -> bool {
    exists|i: int| 0 <= i < s.len() && s[i] == c
}

/// The first of the reserved characters `< > " | ? *`, in that fixed
/// order, that occurs somewhere in the path; none of them may.
pub open spec fn invalid_path_char(s: Seq<char>) -> Option<char> {
    if contains_char(s, '<') {
        Option::Some('<')
    } else if contains_char(s, '>') {
        Option::Some('>')
    } else if contains_char(s, '"') {
        Option::Some('"')
    } else if contains_char(s, '|') {
        Option::Some('|')
    } else if contains_char(s, '?') {
        Option::Some('?')
    } else if contains_char(s, '*') {
        Option::Some('*')
    } else {
        Option::None
    }
}

/// Looks like a drive path (`:` in second position) whose drive letter
/// is not an ASCII letter.
pub open spec fn bad_drive_letter(s: Seq<char>) -> bool {
    s.len() >= 2 && s[1] == ':' && !is_ascii_alpha(s[0])
}

/// Whether `path` holds character `c` anywhere.
fn str_contains_char(path: &str, c: char) -> (r: bool)
    ensures
        r == contains_char(path@, c),
{
    let n = path.unicode_len();
    let mut i: usize = 0;
    while i < n
        invariant
            n == path@.len(),
            i <= n,
            forall|j: int| 0 <= j < i ==> path@[j] != c,
        decreases n - i,
    {
        if path.get_char(i) == c {
            return true;
        }
        i = i + 1;
    }
    false
}

/// Validates a path for use as a file shortcut target: it must be
/// non-empty, hold none of the reserved characters `< > " | ? *`, have
/// an ASCII letter as drive when it looks like a drive path, and the
/// probe must have seen an existing regular file. `:` itself stays
/// legal, drive paths need it.
pub fn validate_file_path(file_path: &str, probe: &PathProbe) -> (r: Result<bool, String>)
    ensures
        ({
            let s = file_path@;
            if s.len() == 0 {
                r matches Err(e) && e@ == "File path is empty"@
            } else if invalid_path_char(s) is Some {
                r matches Err(e) && e@ == "File path contains invalid character: "@.push(
                    invalid_path_char(s).unwrap(),
                )
            } else if bad_drive_letter(s) {
                r matches Err(e) && e@ == "Invalid drive letter in path"@
            } else if !probe.exists {
                r matches Err(e) && e@ == "File does not exist"@
            } else if !probe.is_file {
                r matches Err(e) && e@ == "Path is not a file"@
            } else {
                r == Result::<bool, String>::Ok(true)
            }
        }),
{
    proof {
        reveal_strlit("<");
        reveal_strlit(">");
        reveal_strlit("\"");
        reveal_strlit("|");
        reveal_strlit("?");
        reveal_strlit("*");
    }
    if file_path.unicode_len() == 0 {
        return Err(String::from_str("File path is empty"));
    }
    if str_contains_char(file_path, '<') {
        let mut m = String::from_str("File path contains invalid character: ");
        m.append("<");
        proof {
            assert(m@ =~= "File path contains invalid character: "@.push('<'));
        }
        return Err(m);
    }
    if str_contains_char(file_path, '>') {
        let mut m = String::from_str("File path contains invalid character: ");
        m.append(">");
        proof {
            assert(m@ =~= "File path contains invalid character: "@.push('>'));
        }
        return Err(m);
    }
    if str_contains_char(file_path, '"') {
        let mut m = String::from_str("File path contains invalid character: ");
        m.append("\"");
        proof {
            assert(m@ =~= "File path contains invalid character: "@.push('"'));
        }
        return Err(m);
    }
    if str_contains_char(file_path, '|') {
        let mut m = String::from_str("File path contains invalid character: ");
        m.append("|");
        proof {
            assert(m@ =~= "File path contains invalid character: "@.push('|'));
        }
        return Err(m);
    }
    if str_contains_char(file_path, '?') {
        let mut m = String::from_str("File path contains invalid character: ");
        m.append("?");
        proof {
            assert(m@ =~= "File path contains invalid character: "@.push('?'));
        }
        return Err(m);
    }
    if str_contains_char(file_path, '*') {
        let mut m = String::from_str("File path contains invalid character: ");
        m.append("*");
        proof {
            assert(m@ =~= "File path contains invalid character: "@.push('*'));
        }
        return Err(m);
    }
    if file_path.unicode_len() >= 2 {
        if file_path.get_char(1) == ':' {
            let code = file_path.get_char(0) as u32;
            if !((65 <= code && code <= 90) || (97 <= code && code <= 122)) {
                return Err(String::from_str("Invalid drive letter in path"));
            }
        }
    }
    if !probe.exists {
        return Err(String::from_str("File does not exist"));
    }
    if !probe.is_file {
        return Err(String::from_str("Path is not a file"));
    }
    Ok(true)
}

/// Whether the probe saw the path exist, in the `Result` shape the
/// command boundary expects.
pub fn check_file_exists(file_path: &str, probe: &PathProbe) -> (r: Result<bool, String>)
    ensures
        r == Result::<bool, String>::Ok(probe.exists),
{
    Ok(probe.exists)
}

} // verus!
