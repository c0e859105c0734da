//! Pure path reasoning over textual paths with `/` separators: locating a
//! candidate file relative to the watched root and deriving the names of its
//! recording/transcript pair. Whether the named files exist on disk is for
//! the caller to check.

use vstd::prelude::*;
use vstd::string::StrSliceExecFns;
use vstd::string::StringExecFns;

verus! {

/// Index of the last occurrence of `c` at or below position `i`, or -1.
pub open spec fn last_index_from(s: Seq<char>, c: char, i: int) -> int
    decreases i + 1,
{
    if i < 0 {
        -1
    } else if s[i] == c {
        i
    } else {
        last_index_from(s, c, i - 1)
    }
}

/// Index of the last path separator, or -1 for a bare file name.
pub open spec fn last_slash(s: Seq<char>) -> int {
    last_index_from(s, '/', s.len() - 1)
}

/// The directory part, trailing separator included; empty for a bare name.
pub open spec fn dir_of(s: Seq<char>) -> Seq<char> {
    s.subrange(0, last_slash(s) + 1)
}

/// The file-name part after the last separator.
pub open spec fn name_of(s: Seq<char>) -> Seq<char> {
    s.subrange(last_slash(s) + 1, s.len() as int)
}

/// The parent directory, without a trailing separator; empty for a bare name.
pub open spec fn parent_of(s: Seq<char>) -> Seq<char> {
    if last_slash(s) >= 0 {
        s.subrange(0, last_slash(s))
    } else {
        s.subrange(0, 0)
    }
}

/// A usable file-name part: non-empty, and not the `.` or `..` directory
/// entry, which names no file of its own.
pub open spec fn usable_name(name: Seq<char>) -> bool {
    &&& name.len() > 0
    &&& !(name.len() == 1 && name[0] == '.')
    &&& !(name.len() == 2 && name[0] == '.' && name[1] == '.')
}

/// The file name without its extension: the part before the last dot, except
/// that a dot in the leading position never separates an extension.
pub open spec fn stem_of(name: Seq<char>) -> Seq<char> {
    let d = last_index_from(name, '.', name.len() - 1);
    if d > 0 {
        name.subrange(0, d)
    } else {
        name
    }
}

/// Finds the last occurrence of `c` in `s`.
fn rfind_char(s: &str, c: char, n: usize) -> (r: Option<usize>)
    requires
        n == s@.len(),
    ensures
        match r {
            Some(i) => i < n && s@[i as int] == c && last_index_from(s@, c, n as int - 1) == i,
            None => last_index_from(s@, c, n as int - 1) == -1,
        },
{
    let mut i: usize = n;
    while i > 0
        invariant
            n == s@.len(),
            i <= n,
            last_index_from(s@, c, n as int - 1) == last_index_from(s@, c, i as int - 1),
        decreases i,
    {
        i = i - 1;
        if s.get_char(i) == c {
            proof {
                assert(last_index_from(s@, c, i as int) == i);
            }
            return Some(i);
        }
        proof {
            assert(last_index_from(s@, c, i as int) == last_index_from(s@, c, i as int - 1));
        }
    }
    proof {
        assert(last_index_from(s@, c, -1) == -1);
    }
    None
}

/// Decides whether a candidate path deserves a look at all: only entries
/// strictly below the watched root — never direct root-level entries — are of
/// interest, so a path whose parent directory is the root itself is refused.
pub fn should_process_file(file_path: &str, root_path: &str) -> (r: bool)
    ensures
        r == (parent_of(file_path@) != root_path@),
{
    let n = file_path.unicode_len();
    let par: &str = match rfind_char(file_path, '/', n) {
        Some(i) => file_path.substring_char(0, i),
        None => file_path.substring_char(0, 0),
    };
    proof {
        assert(par@ == parent_of(file_path@));
    }
    let pr = String::from_str(par);
    let rt = String::from_str(root_path);
    !(pr == rt)
}

/// From one path of a pair, the paths of the recording and the transcript:
/// same directory, same stem, extensions `.mp3` and `.txt`. `None` when the
/// path has no usable file-name part (empty, `.` or `..`).
pub fn extract_file_info(file_path: &str) -> (r: Option<(String, String)>)
    ensures
        r is Some <==> usable_name(name_of(file_path@)),
        r matches Some(p) ==> {
            &&& p.0@ == dir_of(file_path@) + stem_of(name_of(file_path@)) + ".mp3"@
            &&& p.1@ == dir_of(file_path@) + stem_of(name_of(file_path@)) + ".txt"@
        },
{
    let n = file_path.unicode_len();
    let dir: &str;
    let name: &str;
    match rfind_char(file_path, '/', n) {
        Some(i) => {
            dir = file_path.substring_char(0, i + 1);
            name = file_path.substring_char(i + 1, n);
        },
        None => {
            dir = file_path.substring_char(0, 0);
            name = file_path.substring_char(0, n);
        },
    }
    proof {
        assert(dir@ == dir_of(file_path@));
        assert(name@ == name_of(file_path@));
    }
    let m = name.unicode_len();
    if m == 0 {
        return None;
    }
    if m == 1 && name.get_char(0) == '.' {
        return None;
    }
    if m == 2 && name.get_char(0) == '.' && name.get_char(1) == '.' {
        return None;
    }
    let stem: &str = match rfind_char(name, '.', m) {
        Some(d) => if d > 0 {
            name.substring_char(0, d)
        } else {
            name
        },
        None => name,
    };
    proof {
        assert(stem@ == stem_of(name@));
    }
    let mut mp3 = String::from_str(dir);
    mp3.append(stem);
    mp3.append(".mp3");
    let mut txt = String::from_str(dir);
    txt.append(stem);
    txt.append(".txt");
    Some((mp3, txt))
}

} // verus!
