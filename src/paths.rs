//! Paths as `/`-separated strings: file names, extensions, and the family of
//! paths derived from one audio file.

use vstd::prelude::*;
use crate::text::{parse_u32, parse_u32_str, same_text};

verus! {

/// The index of the last `c` in `s`, or -1 where there is none.
pub open spec fn last_index_of(s: Seq<char>, c: char) -> int
    decreases s.len(),
{
    if s.len() == 0 {
        -1
    } else if s.last() == c {
        s.len() - 1
    } else {
        last_index_of(s.drop_last(), c)
    }
}

/// The index of the first `c` in `s`, or -1 where there is none.
pub open spec fn first_index_of(s: Seq<char>, c: char) -> int
    decreases s.len(),
{
    if s.len() == 0 {
        -1
    } else if first_index_of(s.drop_last(), c) >= 0 {
        first_index_of(s.drop_last(), c)
    } else if s.last() == c {
        s.len() - 1
    } else {
        -1
    }
}

/// `p` without the separators it ends in.
pub open spec fn trim_end(p: Seq<char>) -> Seq<char>
    decreases p.len(),
{
    if p.len() > 0 && p.last() == '/' {
        trim_end(p.drop_last())
    } else {
        p
    }
}

/// Where the final component of `p` starts: just after the last `/` that
/// is not among the separators it ends in.
pub open spec fn name_start(p: Seq<char>) -> int {
    last_index_of(trim_end(p), '/') + 1
}

/// Whether a component names the current or the parent directory.
pub open spec fn is_dot_name(n: Seq<char>) -> bool {
    n == seq!['.'] || n == seq!['.', '.']
}

/// The final component of `p`, separators it ends in ignored; empty where
/// that component is missing, `.` or `..`.
pub open spec fn file_name(p: Seq<char>) -> Seq<char> {
    let n = trim_end(p).subrange(name_start(p), trim_end(p).len() as int);
    if is_dot_name(n) {
        Seq::empty()
    } else {
        n
    }
}

/// The index of the dot that starts the extension of `p`: the last dot of
/// the file name, unless that dot opens it. -1 where there is no extension.
pub open spec fn extension_dot(p: Seq<char>) -> int {
    let d = last_index_of(trim_end(p), '.');
    if file_name(p).len() > 0 && d > name_start(p) {
        d
    } else {
        -1
    }
}

/// The extension of `p`, without its dot.
pub open spec fn extension(p: Seq<char>) -> Option<Seq<char>> {
    if extension_dot(p) >= 0 {
        Some(trim_end(p).subrange(extension_dot(p) + 1, trim_end(p).len() as int))
    } else {
        None
    }
}

/// `p` with its extension replaced by `ext`, or with `ext` added where it
/// has none, the separators it ended in dropped; a path without a file name
/// stays as it is.
pub open spec fn with_extension(p: Seq<char>, ext: Seq<char>) -> Seq<char> {
    if file_name(p).len() == 0 {
        p
    } else if extension_dot(p) >= 0 {
        trim_end(p).subrange(0, extension_dot(p)) + seq!['.'] + ext
    } else {
        trim_end(p) + seq!['.'] + ext
    }
}

/// `name` placed inside directory `dir`.
pub open spec fn join_path(dir: Seq<char>, name: Seq<char>) -> Seq<char> {
    if dir.len() == 0 {
        name
    } else if dir.last() == '/' {
        dir + name
    } else {
        dir + seq!['/'] + name
    }
}

/// The track number that a file's name starts with: what stands before the
/// first space of the final component, read as an unsigned number.
pub open spec fn track_of_name(p: Seq<char>) -> Option<u32> {
    let f = file_name(p);
    let sp = first_index_of(f, ' ');
    if sp < 0 {
        None
    } else {
        parse_u32(f.subrange(0, sp))
    }
}

pub open spec fn mp3_ext() -> Seq<char> {
    seq!['m', 'p', '3']
}

pub open spec fn flac_ext() -> Seq<char> {
    seq!['f', 'l', 'a', 'c']
}

pub proof fn lemma_last_index_bounds(s: Seq<char>, c: char)
    ensures
        -1 <= last_index_of(s, c) < s.len(),
        last_index_of(s, c) >= 0 ==> s[last_index_of(s, c)] == c,
    decreases s.len(),
{
    if s.len() > 0 {
        lemma_last_index_bounds(s.drop_last(), c);
    }
}

proof fn lemma_first_index_bounds(s: Seq<char>, c: char)
    ensures
        -1 <= first_index_of(s, c) < s.len(),
    decreases s.len(),
{
    if s.len() > 0 {
        lemma_first_index_bounds(s.drop_last(), c);
    }
}

/// The index of the last `c` in `s`.
pub fn find_last(s: &str, c: char) -> (r: Option<usize>)
    ensures
        match r {
            Some(i) => i as int == last_index_of(s@, c) && i < s@.len(),
            None => last_index_of(s@, c) == -1,
        },
        s@.len() <= usize::MAX,
{
    proof {
        lemma_last_index_bounds(s@, c);
    }
    let n = s.unicode_len();
    let mut found: Option<usize> = None;
    let mut i: usize = 0;
    proof {
        assert(s@.subrange(0, 0) =~= Seq::<char>::empty());
    }
    while i < n
        invariant
            n == s@.len(),
            i <= n,
            match found {
                Some(k) => k as int == last_index_of(s@.subrange(0, i as int), c),
                None => last_index_of(s@.subrange(0, i as int), c) == -1,
            },
        decreases n - i,
    {
        proof {
            assert(s@.subrange(0, i + 1).drop_last() =~= s@.subrange(0, i as int));
        }
        if s.get_char(i) == c {
            found = Some(i);
        }
        i = i + 1;
    }
    proof {
        assert(s@.subrange(0, n as int) =~= s@);
    }
    found
}

/// The index of the first `c` in `s`.
pub fn find_first(s: &str, c: char) -> (r: Option<usize>)
    ensures
        match r {
            Some(i) => i as int == first_index_of(s@, c),
            None => first_index_of(s@, c) == -1,
        },
{
    let n = s.unicode_len();
    let mut found: Option<usize> = None;
    let mut i: usize = 0;
    proof {
        assert(s@.subrange(0, 0) =~= Seq::<char>::empty());
    }
    while i < n
        invariant
            n == s@.len(),
            i <= n,
            match found {
                Some(k) => k as int == first_index_of(s@.subrange(0, i as int), c),
                None => first_index_of(s@.subrange(0, i as int), c) == -1,
            },
        decreases n - i,
    {
        proof {
            assert(s@.subrange(0, i + 1).drop_last() =~= s@.subrange(0, i as int));
        }
        if found.is_none() && s.get_char(i) == c {
            found = Some(i);
        }
        i = i + 1;
    }
    proof {
        assert(s@.subrange(0, n as int) =~= s@);
    }
    found
}

/// `p` without the separators it ends in.
fn trim_end_of(p: &str) -> (r: &str)
    ensures
        r@ == trim_end(p@),
{
    let n = p.unicode_len();
    let mut k: usize = n;
    assert(p@.subrange(0, n as int) =~= p@);
    while k > 0 && p.get_char(k - 1) == '/'
        invariant
            n == p@.len(),
            k <= n,
            trim_end(p@.subrange(0, k as int)) == trim_end(p@),
        decreases k,
    {
        assert(p@.subrange(0, k as int).drop_last() =~= p@.subrange(0, k - 1));
        k = k - 1;
    }
    p.substring_char(0, k)
}

/// Where the file name of the trimmed path `t` starts.
fn name_start_of(t: &str) -> (r: usize)
    ensures
        r as int == last_index_of(t@, '/') + 1,
        r <= t@.len(),
{
    proof {
        lemma_last_index_bounds(t@, '/');
    }
    match find_last(t, '/') {
        Some(i) => i + 1,
        None => 0,
    }
}

/// The final component of `p`, as `file_name` gives it.
pub fn file_name_of(p: &str) -> (r: &str)
    ensures
        r@ == file_name(p@),
{
    let t = trim_end_of(p);
    let start = name_start_of(t);
    let n = t.substring_char(start, t.unicode_len());
    proof {
        reveal_strlit(".");
        reveal_strlit("..");
        reveal_strlit("");
        assert("."@ =~= seq!['.']);
        assert(".."@ =~= seq!['.', '.']);
        assert(""@ =~= Seq::<char>::empty());
    }
    if same_text(n, ".") || same_text(n, "..") {
        ""
    } else {
        n
    }
}

/// The extension of `p`, without its dot.
pub fn extension_of(p: &str) -> (r: Option<&str>)
    ensures
        match r {
            Some(e) => extension(p@) == Some(e@),
            None => extension(p@).is_none(),
        },
{
    let name = file_name_of(p);
    let t = trim_end_of(p);
    let start = name_start_of(t);
    proof {
        lemma_last_index_bounds(t@, '.');
    }
    if name.unicode_len() == 0 {
        return None;
    }
    match find_last(t, '.') {
        Some(d) if d > start => Some(t.substring_char(d + 1, t.unicode_len())),
        _ => None,
    }
}

/// `p` with its extension replaced by `ext`.
pub fn replace_extension(p: &str, ext: &str) -> (r: String)
    ensures
        r@ == with_extension(p@, ext@),
{
    let name = file_name_of(p);
    let t = trim_end_of(p);
    let start = name_start_of(t);
    proof {
        lemma_last_index_bounds(t@, '.');
        reveal_strlit(".");
    }
    if name.unicode_len() == 0 {
        return p.to_owned();
    }
    let stem = match find_last(t, '.') {
        Some(d) if d > start => t.substring_char(0, d),
        _ => t,
    };
    let mut r = stem.to_owned();
    r.append(".");
    r.append(ext);
    r
}

/// `name` placed inside directory `dir`.
pub fn join_to_dir(dir: &str, name: &str) -> (r: String)
    ensures
        r@ == join_path(dir@, name@),
{
    let n = dir.unicode_len();
    proof {
        reveal_strlit("/");
    }
    if n == 0 {
        return name.to_owned();
    }
    let mut r = dir.to_owned();
    if dir.get_char(n - 1) != '/' {
        r.append("/");
    }
    r.append(name);
    r
}

/// The track number that the file name of `p` starts with.
pub fn track_from_name(p: &str) -> (r: Option<u32>)
    ensures
        r == track_of_name(p@),
{
    let name = file_name_of(p);
    proof {
        lemma_first_index_bounds(name@, ' ');
    }
    match find_first(name, ' ') {
        Some(sp) => parse_u32_str(name.substring_char(0, sp)),
        None => None,
    }
}

/// One audio file's path with the paths derived from it: the path of its MP3
/// sibling, and where a copy of it goes in an output directory.
#[derive(Debug)]
pub struct PathGroup {
    base: String,
    mp3_path: String,
}

impl PathGroup {
    /// The path the group derives from.
    pub closed spec fn base_path(&self) -> Seq<char> {
        self.base@
    }

    pub closed spec fn wf(&self) -> bool {
        self.mp3_path@ == with_extension(self.base@, mp3_ext())
    }

    pub fn new(base: &str) -> (r: PathGroup)
        ensures
            r.wf(),
            r.base_path() == base@,
    {
        proof {
            reveal_strlit("mp3");
            assert("mp3"@ =~= mp3_ext());
        }
        PathGroup { base: base.to_owned(), mp3_path: replace_extension(base, "mp3") }
    }

    /// The FLAC file itself.
    pub fn flac(&self) -> (r: &str)
        ensures
            r@ == self.base_path(),
    {
        self.base.as_str()
    }

    /// The sibling MP3 path: the same path with the extension `mp3`.
    pub fn mp3(&self) -> (r: &str)
        requires
            self.wf(),
        ensures
            r@ == with_extension(self.base_path(), mp3_ext()),
    {
        self.mp3_path.as_str()
    }

    /// Where the copy of the file goes inside `output_dir`. A path without a
    /// file name (`..`, `/`) gives the directory itself.
    pub fn flac_output(&self, output_dir: &str) -> (r: String)
        ensures
            r@ == join_path(output_dir@, file_name(self.base_path())),
    {
        join_to_dir(output_dir, file_name_of(self.base.as_str()))
    }

    /// The track number that the file's name starts with, if any.
    pub fn track(&self) -> (r: Option<u32>)
        ensures
            r == track_of_name(self.base_path()),
    {
        track_from_name(self.base.as_str())
    }
}

} // verus!
