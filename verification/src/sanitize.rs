use vstd::prelude::*;
use vstd::string::StrSliceExecFns;
use vstd::string::StringExecFns;

use crate::errors::FileError;

verus! {

/// Characters treated as trimmable whitespace at the ends of a filename.
pub open spec fn is_blank(c: char) -> bool {
    c == ' ' || c == '\t' || c == '\n' || c == '\r'
}

/// A filename with its leading and trailing blanks removed.
pub open spec fn trim_spec(s: Seq<char>) -> Seq<char>
    decreases s.len(),
{
    if s.len() == 0 {
        s
    } else if is_blank(s[0]) {
        trim_spec(s.drop_first())
    } else if is_blank(s[s.len() - 1]) {
        trim_spec(s.drop_last())
    } else {
        s
    }
}

/// Whether the name holds a path separator, which the sanitizer rejects.
pub open spec fn has_separator(s: Seq<char>) -> bool {
    exists|i: int| 0 <= i < s.len() && (s[i] == '/' || s[i] == '\\')
}

/// The literal `.txt` extension.
pub open spec fn txt_ext() -> Seq<char> {
    seq!['.', 't', 'x', 't']
}

/// Whether the name ends in `.txt`, compared without regard to letter case.
pub open spec fn txt_suffix_ci(s: Seq<char>) -> bool {
    &&& s.len() >= 4
    &&& s[s.len() - 4] == '.'
    &&& (s[s.len() - 3] == 't' || s[s.len() - 3] == 'T')
    &&& (s[s.len() - 2] == 'x' || s[s.len() - 2] == 'X')
    &&& (s[s.len() - 1] == 't' || s[s.len() - 1] == 'T')
}

/// Whether sanitization accepts the filename: trimmed, it must be
/// non-empty and free of path separators.
pub open spec fn sanitize_ok(f: Seq<char>) -> bool {
    trim_spec(f).len() > 0 && !has_separator(trim_spec(f))
}

/// The name an accepted filename is stored under: the trimmed name,
/// with `.txt` appended unless already present (in any letter case).
pub open spec fn sanitized_name(f: Seq<char>) -> Seq<char> {
    if txt_suffix_ci(trim_spec(f)) {
        trim_spec(f)
    } else {
        trim_spec(f) + txt_ext()
    }
}

fn is_blank_exec(c: char) -> (r: bool)
    ensures
        r == is_blank(c),
{
    c == ' ' || c == '\t' || c == '\n' || c == '\r'
}

fn trim_str(s: &str) -> (r: &str)
    ensures
        r@ == trim_spec(s@),
{
    let len = s.unicode_len();
    let mut i: usize = 0;
    let mut j: usize = len;
    proof {
        assert(s@.subrange(0, len as int) =~= s@);
    }
    while i < j && is_blank_exec(s.get_char(i))
        invariant
            0 <= i <= j <= s@.len(),
            trim_spec(s@) == trim_spec(s@.subrange(i as int, j as int)),
        decreases j - i,
    {
        proof {
            assert(s@.subrange(i as int, j as int).drop_first() =~= s@.subrange(
                i as int + 1,
                j as int,
            ));
        }
        i = i + 1;
    }
    while i < j && is_blank_exec(s.get_char(j - 1))
        invariant
            0 <= i <= j <= s@.len(),
            trim_spec(s@) == trim_spec(s@.subrange(i as int, j as int)),
            i < j ==> !is_blank(s@[i as int]),
        decreases j - i,
    {
        proof {
            assert(s@.subrange(i as int, j as int).drop_last() =~= s@.subrange(
                i as int,
                j as int - 1,
            ));
        }
        j = j - 1;
    }
    let r = s.substring_char(i, j);
    proof {
        assert(trim_spec(s@.subrange(i as int, j as int)) == s@.subrange(i as int, j as int));
    }
    r
}

fn contains_separator(s: &str) -> (r: bool)
    ensures
        r == has_separator(s@),
{
    let len = s.unicode_len();
    let mut i: usize = 0;
    while i < len
        invariant
            0 <= i <= len == s@.len(),
            forall|k: int| 0 <= k < i ==> !(s@[k] == '/' || s@[k] == '\\'),
        decreases len - i,
    {
        let c = s.get_char(i);
        if c == '/' || c == '\\' {
            return true;
        }
        i = i + 1;
    }
    false
}

pub(crate) fn ends_txt_ci(s: &str) -> (r: bool)
    ensures
        r == txt_suffix_ci(s@),
{
    let n = s.unicode_len();
    if n < 4 {
        return false;
    }
    let c0 = s.get_char(n - 4);
    let c1 = s.get_char(n - 3);
    let c2 = s.get_char(n - 2);
    let c3 = s.get_char(n - 1);
    c0 == '.' && (c1 == 't' || c1 == 'T') && (c2 == 'x' || c2 == 'X') && (c3 == 't' || c3 == 'T')
}

/// Validates and normalizes a filename for the sandboxed store: trims
/// blanks, rejects empty names and names holding `/` or `\`, and appends
/// `.txt` unless the trimmed name already ends in it (in any letter case).
pub fn sanitize_filename(filename: &str) -> (r: Result<String, FileError>)
    ensures
        match r {
            Ok(name) => sanitize_ok(filename@) && name@ == sanitized_name(filename@),
            Err(e) => e == FileError::InvalidFilename && !sanitize_ok(filename@),
        },
{
    let t = trim_str(filename);
    if t.unicode_len() == 0 {
        return Err(FileError::InvalidFilename);
    }
    if contains_separator(t) {
        return Err(FileError::InvalidFilename);
    }
    let mut name = t.to_owned();
    if !ends_txt_ci(t) {
        name.append(".txt");
        proof {
            reveal_strlit(".txt");
            assert(".txt"@ =~= txt_ext());
        }
    }
    Ok(name)
}

proof fn lemma_trim_ends(s: Seq<char>)
    ensures
        trim_spec(s).len() > 0 ==> !is_blank(trim_spec(s)[0]) && !is_blank(
            trim_spec(s)[trim_spec(s).len() - 1],
        ),
    decreases s.len(),
{
    if s.len() == 0 {
    } else if is_blank(s[0]) {
        lemma_trim_ends(s.drop_first());
    } else if is_blank(s[s.len() - 1]) {
        lemma_trim_ends(s.drop_last());
    }
}

/// Every name the sanitizer accepts comes out non-empty, free of path
/// separators, and ending in `.txt` (in some letter case).
pub proof fn lemma_sanitized_name_valid(f: Seq<char>)
    requires
        sanitize_ok(f),
    ensures
        sanitized_name(f).len() > 0,
        !has_separator(sanitized_name(f)),
        txt_suffix_ci(sanitized_name(f)),
{
    let t = trim_spec(f);
    if !txt_suffix_ci(t) {
        let n = t + txt_ext();
        assert(n[n.len() - 4] == '.');
        assert(n[n.len() - 3] == 't');
        assert(n[n.len() - 2] == 'x');
        assert(n[n.len() - 1] == 't');
        assert(!has_separator(n)) by {
            assert forall|i: int| 0 <= i < n.len() implies !(n[i] == '/' || n[i] == '\\') by {
                if i < t.len() {
                    assert(!has_separator(t));
                } else {
                    assert(n[i] == txt_ext()[i - t.len()]);
                }
            }
        }
    }
}

/// Sanitizing is idempotent: a name the sanitizer has produced is
/// accepted again and returned unchanged.
pub proof fn lemma_sanitize_idempotent(f: Seq<char>)
    requires
        sanitize_ok(f),
    ensures
        sanitize_ok(sanitized_name(f)),
        sanitized_name(sanitized_name(f)) == sanitized_name(f),
{
    let t = trim_spec(f);
    let n = sanitized_name(f);
    lemma_sanitized_name_valid(f);
    lemma_trim_ends(f);
    assert(n[0] == t[0]);
    assert(!is_blank(n[n.len() - 1]));
    assert(trim_spec(n) == n);
}

} // verus!
