//! Classification of photo files by extension, and the path model it rests on.
//!
//! A path is a sequence of characters; its file name is the text after the
//! last `/`. The extension and the stem follow the usual rules: a name that
//! begins with its only dot (`.jpg`) has no extension, and `..` has neither.
use vstd::prelude::*;
use vstd::string::*;

verus! {

/// Relies on `String::push`: it appends the character to the end of the string.
pub assume_specification[ String::push ](s: &mut String, ch: char)
    ensures
        final(s)@ == old(s)@.push(ch),
;

/// Index of the last `c` among the first `n` characters of `s`, or -1.
pub open spec fn last_index_upto(s: Seq<char>, c: char, n: int) -> int
    decreases n,
{
    if n <= 0 {
        -1
    } else if s[n - 1] == c {
        n - 1
    } else {
        last_index_upto(s, c, n - 1)
    }
}

/// Index of the last `c` in `s`, or -1.
pub open spec fn last_index_of(s: Seq<char>, c: char) -> int {
    last_index_upto(s, c, s.len() as int)
}

pub open spec fn is_dot_dot(name: Seq<char>) -> bool {
    name =~= seq!['.', '.']
}

/// The file name of a path: what follows its last `/`.
pub open spec fn file_name_of(p: Seq<char>) -> Seq<char> {
    p.subrange(last_index_of(p, '/') + 1, p.len() as int)
}

/// The extension of a path, without its dot.
pub open spec fn extension_of(p: Seq<char>) -> Option<Seq<char>> {
    let name = file_name_of(p);
    let d = last_index_of(name, '.');
    if is_dot_dot(name) || d <= 0 {
        None
    } else {
        Some(name.subrange(d + 1, name.len() as int))
    }
}

/// The file name of a path without its extension.
pub open spec fn stem_of(p: Seq<char>) -> Option<Seq<char>> {
    let name = file_name_of(p);
    let d = last_index_of(name, '.');
    if name.len() == 0 || is_dot_dot(name) {
        None
    } else if d <= 0 {
        Some(name)
    } else {
        Some(name.subrange(0, d))
    }
}

pub open spec fn ascii_lower(c: char) -> char {
    if 'A' <= c && c <= 'Z' {
        ((c as u8) + 32) as char
    } else {
        c
    }
}

pub open spec fn ascii_upper(c: char) -> char {
    if 'a' <= c && c <= 'z' {
        ((c as u8) - 32) as char
    } else {
        c
    }
}

pub open spec fn lower_seq(s: Seq<char>) -> Seq<char> {
    s.map_values(|c: char| ascii_lower(c))
}

pub open spec fn upper_seq(s: Seq<char>) -> Seq<char> {
    s.map_values(|c: char| ascii_upper(c))
}

/// The raster formats, as lower-case extensions.
pub open spec fn is_raster_ext(e: Seq<char>) -> bool {
    ||| e =~= seq!['j', 'p', 'g']
    ||| e =~= seq!['j', 'p', 'e', 'g']
    ||| e =~= seq!['p', 'n', 'g']
    ||| e =~= seq!['t', 'i', 'f', 'f']
    ||| e =~= seq!['t', 'i', 'f']
}

/// The camera RAW formats, as lower-case extensions.
pub open spec fn is_raw_ext(e: Seq<char>) -> bool {
    ||| e =~= seq!['c', 'r', '2']
    ||| e =~= seq!['c', 'r', '3']
    ||| e =~= seq!['a', 'r', 'w']
    ||| e =~= seq!['n', 'e', 'f']
    ||| e =~= seq!['d', 'n', 'g']
}

pub open spec fn is_supported_ext(e: Seq<char>) -> bool {
    is_raster_ext(e) || is_raw_ext(e)
}

/// A path names a supported file when its extension, folded to lower case,
/// is a raster or a RAW format.
pub open spec fn is_supported_path(p: Seq<char>) -> bool {
    match extension_of(p) {
        Some(e) => is_supported_ext(lower_seq(e)),
        None => false,
    }
}

pub open spec fn is_raw_path(p: Seq<char>) -> bool {
    match extension_of(p) {
        Some(e) => is_raw_ext(lower_seq(e)),
        None => false,
    }
}

pub open spec fn is_raster_path(p: Seq<char>) -> bool {
    match extension_of(p) {
        Some(e) => is_raster_ext(lower_seq(e)),
        None => false,
    }
}

/// The type shown for a photo: its extension in upper case, or `unknown`.
pub open spec fn file_type_of(p: Seq<char>) -> Seq<char> {
    match extension_of(p) {
        Some(e) => upper_seq(e),
        None => seq!['u', 'n', 'k', 'n', 'o', 'w', 'n'],
    }
}

/// The name shown for a photo: its file name, or `unknown` where it has none.
pub open spec fn display_name_of(p: Seq<char>) -> Seq<char> {
    let name = file_name_of(p);
    if name.len() == 0 || is_dot_dot(name) {
        seq!['u', 'n', 'k', 'n', 'o', 'w', 'n']
    } else {
        name
    }
}

/// Whether a path has a supported extension; case does not matter.
pub proof fn lemma_classification_ignores_case(p: Seq<char>, q: Seq<char>)
    requires
        extension_of(p) is Some,
        extension_of(q) is Some,
        lower_seq(extension_of(p)->0) =~= lower_seq(extension_of(q)->0),
    ensures
        is_supported_path(p) == is_supported_path(q),
        is_raw_path(p) == is_raw_path(q),
{
}

/// A path without an extension is never supported, nor RAW.
pub proof fn lemma_no_extension_rejected(p: Seq<char>)
    requires
        extension_of(p) is None,
    ensures
        !is_supported_path(p),
        !is_raw_path(p),
{
}

/// Every RAW file is supported, no RAW file is a raster file, and every
/// supported file is one of the two.
pub proof fn lemma_raw_raster_disjoint(p: Seq<char>)
    ensures
        is_raw_path(p) ==> is_supported_path(p) && !is_raster_path(p),
        is_raster_path(p) ==> is_supported_path(p) && !is_raw_path(p),
        is_supported_path(p) ==> (is_raw_path(p) || is_raster_path(p)),
{
    if let Some(e) = extension_of(p) {
        let l = lower_seq(e);
        if is_raw_ext(l) && is_raster_ext(l) {
            if l.len() == 3 {
                assert(l[0] == 'c' || l[0] == 'a' || l[0] == 'n' || l[0] == 'd');
                assert(l[0] == 'j' || l[0] == 'p' || l[0] == 't');
            } else {
                assert(l.len() == 4);
            }
        }
    }
}

/// Index of the last `c` in `s`.
pub fn find_last(s: &str, c: char) -> (r: Option<usize>)
    ensures
        match r {
            Some(i) => i as int == last_index_of(s@, c) && i < s@.len() && s@[i as int] == c,
            None => last_index_of(s@, c) == -1,
        },
{
    let mut i = s.unicode_len();
    while i > 0
        invariant
            i <= s@.len(),
            last_index_of(s@, c) == last_index_upto(s@, c, i as int),
        decreases i,
    {
        if s.get_char(i - 1) == c {
            return Some(i - 1);
        }
        i = i - 1;
    }
    None
}

fn is_dot_dot_str(name: &str) -> (r: bool)
    ensures
        r == is_dot_dot(name@),
{
    if name.unicode_len() != 2 {
        return false;
    }
    name.get_char(0) == '.' && name.get_char(1) == '.'
}

/// The file name of a path.
pub fn file_name(path: &str) -> (r: &str)
    ensures
        r@ == file_name_of(path@),
{
    let n = path.unicode_len();
    match find_last(path, '/') {
        Some(i) => path.substring_char(i + 1, n),
        None => path.substring_char(0, n),
    }
}

/// The extension of a path, without its dot.
pub fn file_extension(path: &str) -> (r: Option<&str>)
    ensures
        match r {
            Some(e) => extension_of(path@) == Some(e@),
            None => extension_of(path@) is None,
        },
{
    let name = file_name(path);
    if is_dot_dot_str(name) {
        return None;
    }
    let n = name.unicode_len();
    match find_last(name, '.') {
        Some(d) => {
            if d == 0 {
                None
            } else {
                Some(name.substring_char(d + 1, n))
            }
        },
        None => None,
    }
}

/// The file name of a path without its extension.
pub fn file_stem(path: &str) -> (r: Option<&str>)
    ensures
        match r {
            Some(s) => stem_of(path@) == Some(s@),
            None => stem_of(path@) is None,
        },
{
    let name = file_name(path);
    if name.unicode_len() == 0 || is_dot_dot_str(name) {
        return None;
    }
    match find_last(name, '.') {
        Some(d) => {
            if d == 0 {
                Some(name)
            } else {
                Some(name.substring_char(0, d))
            }
        },
        None => Some(name),
    }
}

fn lower_char(c: char) -> (r: char)
    ensures
        r == ascii_lower(c),
{
    if 'A' <= c && c <= 'Z' {
        ((c as u8) + 32) as char
    } else {
        c
    }
}

fn upper_char(c: char) -> (r: char)
    ensures
        r == ascii_upper(c),
{
    if 'a' <= c && c <= 'z' {
        ((c as u8) - 32) as char
    } else {
        c
    }
}

/// The characters of `s`, with ASCII letters folded to lower case.
pub fn ascii_lowercase(s: &str) -> (r: Vec<char>)
    ensures
        r@ == lower_seq(s@),
{
    let n = s.unicode_len();
    let mut r: Vec<char> = Vec::new();
    let mut i: usize = 0;
    while i < n
        invariant
            n == s@.len(),
            i <= n,
            r@ =~= lower_seq(s@).subrange(0, i as int),
        decreases n - i,
    {
        r.push(lower_char(s.get_char(i)));
        i = i + 1;
    }
    assert(r@ =~= lower_seq(s@));
    r
}

/// `s` with ASCII letters raised to upper case.
pub fn ascii_uppercase(s: &str) -> (r: String)
    ensures
        r@ == upper_seq(s@),
{
    let n = s.unicode_len();
    let mut r = String::new();
    let mut i: usize = 0;
    while i < n
        invariant
            n == s@.len(),
            i <= n,
            r@ =~= upper_seq(s@).subrange(0, i as int),
        decreases n - i,
    {
        r.push(upper_char(s.get_char(i)));
        i = i + 1;
    }
    assert(r@ =~= upper_seq(s@));
    r
}

/// The characters of `s`.
pub fn chars_of(s: &str) -> (r: Vec<char>)
    ensures
        r@ == s@,
{
    let n = s.unicode_len();
    let mut r: Vec<char> = Vec::new();
    let mut i: usize = 0;
    while i < n
        invariant
            n == s@.len(),
            i <= n,
            r@ =~= s@.subrange(0, i as int),
        decreases n - i,
    {
        r.push(s.get_char(i));
        i = i + 1;
    }
    assert(r@ =~= s@);
    r
}

/// Whether two character sequences are equal.
pub fn chars_equal(a: &Vec<char>, b: &Vec<char>) -> (r: bool)
    ensures
        r == (a@ =~= b@),
{
    if a.len() != b.len() {
        return false;
    }
    let mut i: usize = 0;
    while i < a.len()
        invariant
            a@.len() == b@.len(),
            i <= a@.len(),
            forall|j: int| 0 <= j < i ==> a@[j] == b@[j],
        decreases a.len() - i,
    {
        if a[i] != b[i] {
            return false;
        }
        i = i + 1;
    }
    true
}

fn is_raster_ext_exec(e: &Vec<char>) -> (r: bool)
    ensures
        r == is_raster_ext(e@),
{
    chars_equal(e, &vec!['j', 'p', 'g']) || chars_equal(e, &vec!['j', 'p', 'e', 'g'])
        || chars_equal(e, &vec!['p', 'n', 'g']) || chars_equal(e, &vec!['t', 'i', 'f', 'f'])
        || chars_equal(e, &vec!['t', 'i', 'f'])
}

fn is_raw_ext_exec(e: &Vec<char>) -> (r: bool)
    ensures
        r == is_raw_ext(e@),
{
    chars_equal(e, &vec!['c', 'r', '2']) || chars_equal(e, &vec!['c', 'r', '3'])
        || chars_equal(e, &vec!['a', 'r', 'w']) || chars_equal(e, &vec!['n', 'e', 'f'])
        || chars_equal(e, &vec!['d', 'n', 'g'])
}

/// Whether the path names a supported photo file, judged by its extension
/// alone, in any mixture of case.
pub fn is_supported_file(path: &str) -> (r: bool)
    ensures
        r == is_supported_path(path@),
{
    match file_extension(path) {
        Some(e) => {
            let l = ascii_lowercase(e);
            is_raster_ext_exec(&l) || is_raw_ext_exec(&l)
        },
        None => false,
    }
}

/// Whether the path names a camera RAW file, judged by its extension alone.
pub fn is_raw_file(path: &str) -> (r: bool)
    ensures
        r == is_raw_path(path@),
{
    match file_extension(path) {
        Some(e) => {
            let l = ascii_lowercase(e);
            is_raw_ext_exec(&l)
        },
        None => false,
    }
}

fn unknown() -> (r: String)
    ensures
        r@ == seq!['u', 'n', 'k', 'n', 'o', 'w', 'n'],
{
    let mut r = String::new();
    r.push('u');
    r.push('n');
    r.push('k');
    r.push('n');
    r.push('o');
    r.push('w');
    r.push('n');
    assert(r@ =~= seq!['u', 'n', 'k', 'n', 'o', 'w', 'n']);
    r
}

/// The type shown for a photo: its extension in upper case, or `unknown`.
pub fn file_type(path: &str) -> (r: String)
    ensures
        r@ == file_type_of(path@),
{
    match file_extension(path) {
        Some(e) => ascii_uppercase(e),
        None => unknown(),
    }
}

/// The name shown for a photo: its file name, or `unknown` where it has none.
pub fn display_name(path: &str) -> (r: String)
    ensures
        r@ == display_name_of(path@),
{
    let name = file_name(path);
    if name.unicode_len() == 0 || is_dot_dot_str(name) {
        unknown()
    } else {
        name.to_owned()
    }
}

} // verus!
