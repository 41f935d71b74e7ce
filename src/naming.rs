//! Icon names: the file name of a path without its extension.
use vstd::prelude::*;
use vstd::string::*;

verus! {

/// Index of the last `c` among the first `end` characters of `s`, or -1.
pub open spec fn last_index_before(s: Seq<char>, c: char, end: int) -> int
    decreases end,
{
    if end <= 0 {
        -1
    } else if s[end - 1] == c {
        end - 1
    } else {
        last_index_before(s, c, end - 1)
    }
}

/// Index of the last `c` in `s`, or -1.
pub open spec fn last_index_of(s: Seq<char>, c: char) -> int {
    last_index_before(s, c, s.len() as int)
}

/// The file name of a `/`-separated path: what follows its last separator.
pub open spec fn file_name_of(path: Seq<char>) -> Seq<char> {
    path.subrange(last_index_of(path, '/') + 1, path.len() as int)
}

/// The stem of a path: its file name up to the last `.`, or the whole file
/// name where it holds no `.` or only a leading one. Only `/` separates
/// directories here: a path written with another separator is to be given
/// with its components joined by `/`.
pub open spec fn stem_of(path: Seq<char>) -> Seq<char> {
    let name = file_name_of(path);
    let dot = last_index_of(name, '.');
    if dot <= 0 {
        name
    } else {
        name.subrange(0, dot)
    }
}

proof fn lemma_last_index_before_range(s: Seq<char>, c: char, end: int)
    requires
        end <= s.len(),
    ensures
        -1 <= last_index_before(s, c, end) < if end > 0 { end } else { 0 },
        last_index_before(s, c, end) >= 0 ==> s[last_index_before(s, c, end)] == c,
    decreases end,
{
    if end > 0 && s[end - 1] != c {
        lemma_last_index_before_range(s, c, end - 1);
    }
}

fn last_index(s: &str, c: char) -> (r: Option<usize>)
    ensures
        match r {
            Some(i) => i as int == last_index_of(s@, c),
            None => last_index_of(s@, c) == -1,
        },
{
    let mut end: usize = s.unicode_len();
    while end > 0
        invariant
            end <= s@.len(),
            last_index_before(s@, c, end as int) == last_index_of(s@, c),
        decreases end,
    {
        if s.get_char(end - 1) == c {
            return Some(end - 1);
        }
        end = end - 1;
    }
    None
}

/// The name under which the icon at the `/`-separated `path` is listed.
pub fn file_stem(path: &str) -> (r: String)
    ensures
        r@ == stem_of(path@),
{
    let len = path.unicode_len();
    proof {
        lemma_last_index_before_range(path@, '/', path@.len() as int);
    }
    let start: usize = match last_index(path, '/') {
        Some(i) => i + 1,
        None => 0,
    };
    let name = path.substring_char(start, len);
    proof {
        lemma_last_index_before_range(name@, '.', name@.len() as int);
    }
    let stem = match last_index(name, '.') {
        Some(d) if d > 0 => name.substring_char(0, d),
        _ => name,
    };
    stem.to_string()
}

} // verus!
