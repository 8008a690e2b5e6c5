//! Small verified string utilities: ASCII case-insensitive comparison,
//! lowercase hexadecimal formatting, and filename sanitizing.

use vstd::prelude::*;

verus! {

/// Unicode code point of `c` after ASCII lowercasing: `A`..`Z` map to
/// `a`..`z`, every other character is unchanged.
pub open spec fn lower_code(c: char) -> int {
    if 65 <= c as int && c as int <= 90 {
        c as int + 32
    } else {
        c as int
    }
}

/// The two character sequences are equal up to ASCII case.
pub open spec fn eq_ignore_ascii_case(a: Seq<char>, b: Seq<char>) -> bool {
    a.len() == b.len() && forall|i: int| 0 <= i < a.len() ==> lower_code(a[i]) == lower_code(b[i])
}

/// `A`-`Z` or `a`-`z`.
pub open spec fn is_ascii_alpha(c: char) -> bool {
    (65 <= c as int && c as int <= 90) || (97 <= c as int && c as int <= 122)
}

/// Compares two strings for equality up to ASCII case.
pub fn str_eq_ignore_ascii_case(a: &str, b: &str) -> (r: bool)
    ensures
        r == eq_ignore_ascii_case(a@, b@),
{
    let la = a.unicode_len();
    let lb = b.unicode_len();
    if la != lb {
        return false;
    }
    let mut i: usize = 0;
    while i < la
        invariant
            la == a@.len(),
            la == b@.len(),
            i <= la,
            forall|j: int| 0 <= j < i ==> lower_code(a@[j]) == lower_code(b@[j]),
        decreases la - i,
    {
        let ca = a.get_char(i) as u32;
        let cb = b.get_char(i) as u32;
        let lca = if 65 <= ca && ca <= 90 {
            ca + 32
        } else {
            ca
        };
        let lcb = if 65 <= cb && cb <= 90 {
            cb + 32
        } else {
            cb
        };
        if lca != lcb {
            return false;
        }
        i = i + 1;
    }
    true
}

/// Lowercase hexadecimal digit for a value below sixteen.
pub open spec fn hex_digit(d: int) -> char {
    if d == 0 {
        '0'
    } else if d == 1 {
        '1'
    } else if d == 2 {
        '2'
    } else if d == 3 {
        '3'
    } else if d == 4 {
        '4'
    } else if d == 5 {
        '5'
    } else if d == 6 {
        '6'
    } else if d == 7 {
        '7'
    } else if d == 8 {
        '8'
    } else if d == 9 {
        '9'
    } else if d == 10 {
        'a'
    } else if d == 11 {
        'b'
    } else if d == 12 {
        'c'
    } else if d == 13 {
        'd'
    } else if d == 14 {
        'e'
    } else {
        'f'
    }
}

/// Lowercase hexadecimal rendering of `n`, most significant digit first,
/// without leading zeroes (`0` renders as `"0"`).
pub open spec fn hex_of(n: nat) -> Seq<char>
    decreases n,
{
    if n < 16 {
        seq![hex_digit(n as int)]
    } else {
        hex_of(n / 16).push(hex_digit((n % 16) as int))
    }
}

/// One-character string for a hexadecimal digit value.
fn hex_digit_str(d: u64) -> (r: &'static str)
    requires
        d < 16,
    ensures
        r@.len() == 1,
        r@[0] == hex_digit(d as int),
{
    proof {
        reveal_strlit("0");
        reveal_strlit("1");
        reveal_strlit("2");
        reveal_strlit("3");
        reveal_strlit("4");
        reveal_strlit("5");
        reveal_strlit("6");
        reveal_strlit("7");
        reveal_strlit("8");
        reveal_strlit("9");
        reveal_strlit("a");
        reveal_strlit("b");
        reveal_strlit("c");
        reveal_strlit("d");
        reveal_strlit("e");
        reveal_strlit("f");
    }
    if d == 0 {
        "0"
    } else if d == 1 {
        "1"
    } else if d == 2 {
        "2"
    } else if d == 3 {
        "3"
    } else if d == 4 {
        "4"
    } else if d == 5 {
        "5"
    } else if d == 6 {
        "6"
    } else if d == 7 {
        "7"
    } else if d == 8 {
        "8"
    } else if d == 9 {
        "9"
    } else if d == 10 {
        "a"
    } else if d == 11 {
        "b"
    } else if d == 12 {
        "c"
    } else if d == 13 {
        "d"
    } else if d == 14 {
        "e"
    } else {
        "f"
    }
}

/// Renders `n` in lowercase hexadecimal, as `format!("{:x}", n)` would.
pub fn u64_to_hex(n: u64) -> (r: String)
    ensures
        r@ == hex_of(n as nat),
    decreases n,
{
    if n < 16 {
        let r = String::from_str(hex_digit_str(n));
        proof {
            assert(r@ =~= hex_of(n as nat));
        }
        r
    } else {
        let mut s = u64_to_hex(n / 16);
        s.append(hex_digit_str(n % 16));
        proof {
            assert(s@ =~= hex_of(n as nat));
        }
        s
    }
}

/// A character that is replaced by `_` when sanitizing a filename.
pub open spec fn is_reserved_filename_char(c: char) -> bool {
    c == '<' || c == '>' || c == ':' || c == '"' || c == '/' || c == '\\' || c == '|' || c == '?'
        || c == '*'
}

/// `s` with every reserved filename character replaced by `_`.
pub open spec fn sanitize_seq(s: Seq<char>) -> Seq<char> {
    Seq::new(
        s.len(),
        |i: int|
            if is_reserved_filename_char(s[i]) {
                '_'
            } else {
                s[i]
            },
    )
}

/// Replaces the characters that are reserved in filenames
/// (`< > : " / \ | ? *`) by `_`, keeping everything else.
pub fn sanitize_filename(filename: &str) -> (r: String)
    ensures
        r@ == sanitize_seq(filename@),
{
    proof {
        reveal_strlit("_");
    }
    let n = filename.unicode_len();
    let mut out = String::new();
    let mut i: usize = 0;
    while i < n
        invariant
            n == filename@.len(),
            i <= n,
            out@ =~= sanitize_seq(filename@).subrange(0, i as int),
            "_"@.len() == 1 && "_"@[0] == '_',
        decreases n - i,
    {
        let c = filename.get_char(i);
        if c == '<' || c == '>' || c == ':' || c == '"' || c == '/' || c == '\\' || c == '|' || c
            == '?' || c == '*' {
            out.append("_");
        } else {
            let piece = filename.substring_char(i, i + 1);
            out.append(piece);
        }
        proof {
            assert(out@ =~= sanitize_seq(filename@).subrange(0, i + 1 as int));
        }
        i = i + 1;
    }
    proof {
        assert(sanitize_seq(filename@).subrange(0, n as int) =~= sanitize_seq(filename@));
    }
    out
}

} // verus!
