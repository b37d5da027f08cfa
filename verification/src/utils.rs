use vstd::prelude::*;

verus! {

/// A span of character offsets in a source file.
#[derive(Debug, Clone, Copy, PartialEq, Eq)]
pub struct TextPos {
    pub begin: usize,
    pub end: usize,
}

impl TextPos {
    pub fn new(begin: usize, end: usize) -> (r: Self)
        ensures
            r.begin == begin,
            r.end == end,
    {
        TextPos { begin, end }
    }

    pub fn uniform(index: usize) -> (r: Self)
        ensures
            r.begin == index,
            r.end == index,
    {
        TextPos { begin: index, end: index }
    }

    /// The smallest span that covers both spans' bounds.
    pub open spec fn spec_add(self, rhs: TextPos) -> TextPos {
        TextPos {
            begin: if self.begin <= rhs.begin { self.begin } else { rhs.begin },
            end: if self.end >= rhs.end { self.end } else { rhs.end },
        }
    }
}

impl core::ops::Add for TextPos {
    type Output = TextPos;

    fn add(self, rhs: TextPos) -> (r: TextPos) {
        TextPos {
            begin: if self.begin <= rhs.begin { self.begin } else { rhs.begin },
            end: if self.end >= rhs.end { self.end } else { rhs.end },
        }
    }
}

impl vstd::std_specs::ops::AddSpecImpl for TextPos {
    open spec fn obeys_add_spec() -> bool {
        true
    }

    open spec fn add_req(self, rhs: TextPos) -> bool {
        true
    }

    open spec fn add_spec(self, rhs: TextPos) -> TextPos {
        self.spec_add(rhs)
    }
}



impl From<usize> for TextPos {
    fn from(value: usize) -> (r: TextPos) {
        TextPos { begin: value, end: value }
    }
}

impl vstd::std_specs::convert::FromSpecImpl<usize> for TextPos {
    open spec fn obeys_from_spec() -> bool {
        true
    }

    open spec fn from_spec(v: usize) -> TextPos {
        TextPos { begin: v, end: v }
    }
}

/// Joining spans covers both of them, and neither the order nor the grouping
/// of joins changes the result.
pub proof fn lemma_span_join(a: TextPos, b: TextPos, c: TextPos)
    ensures
        a.spec_add(b).begin <= a.begin && a.spec_add(b).begin <= b.begin,
        a.spec_add(b).end >= a.end && a.spec_add(b).end >= b.end,
        a.spec_add(b).begin == a.begin || a.spec_add(b).begin == b.begin,
        a.spec_add(b).end == a.end || a.spec_add(b).end == b.end,
        a.spec_add(b) == b.spec_add(a),
        a.spec_add(b).spec_add(c) == a.spec_add(b.spec_add(c)),
{
}

/// A human-readable position: line and column (both counted from 1) in a file.
#[derive(Debug)]
pub struct TextLoc {
    pub line: usize,
    pub column: usize,
    pub file: PathInfo,
}

impl Clone for TextLoc {
    fn clone(&self) -> (r: Self)
        ensures
            r == *self,
    {
        TextLoc { line: self.line, column: self.column, file: self.file.clone() }
    }
}

/// A location written as `path:line:column`, with the full path when there is one.
pub open spec fn loc_text(loc: TextLoc) -> Seq<char> {
    let path = match loc.file.full_path {
        Some(p) => p@,
        None => loc.file.relative_path@,
    };
    path + ":"@ + crate::text::nat_digits(loc.line as nat) + ":"@ + crate::text::nat_digits(loc.column as nat)
}

impl TextLoc {
    pub fn to_text(&self) -> (r: String)
        ensures
            r@ == loc_text(*self),
    {
        let mut out = String::new();
        match &self.file.full_path {
            Some(p) => crate::text::push_str(&mut out, p.as_str()),
            None => crate::text::push_str(&mut out, self.file.relative_path.as_str()),
        }
        crate::text::push_str(&mut out, ":");
        crate::text::append_usize(&mut out, self.line);
        crate::text::push_str(&mut out, ":");
        crate::text::append_usize(&mut out, self.column);
        out
    }
}

/// Line and column reached after reading `chars[0..n]`, starting from line 1 and
/// column 1: a newline moves to the next line and resets the column to 0, any
/// other character moves one column further.
pub open spec fn line_col_after(chars: Seq<char>, n: int) -> (int, int)
    decreases n,
{
    if n <= 0 {
        (1, 1)
    } else {
        let (l, c) = line_col_after(chars, n - 1);
        if chars[n - 1] == '\n' {
            (l + 1, 0)
        } else {
            (l, c + 1)
        }
    }
}

/// Number of newline characters in `chars[0..n]`.
pub open spec fn count_newlines(chars: Seq<char>, n: int) -> nat
    decreases n,
{
    if n <= 0 {
        0
    } else {
        count_newlines(chars, n - 1) + if chars[n - 1] == '\n' { 1nat } else { 0nat }
    }
}

proof fn lemma_line_col_bounds(chars: Seq<char>, n: int)
    requires
        0 <= n,
    ensures
        1 <= line_col_after(chars, n).0 <= n + 1,
        0 <= line_col_after(chars, n).1 <= n + 1,
        count_newlines(chars, n) <= n,
    decreases n,
{
    if n > 0 {
        lemma_line_col_bounds(chars, n - 1);
    }
}

/// The location of a span's beginning: for an offset inside the file, the line
/// and column reached after reading up to and including that character; past
/// the end, the last line and column 1.
pub open spec fn spec_get_loc(pos: TextPos, file: FileInfo) -> TextLoc {
    let n = file.chars@.len() as int;
    if pos.begin >= n {
        let count = count_newlines(file.chars@, n);
        let line = if count < usize::MAX { (count + 1) as usize } else { usize::MAX };
        TextLoc { line, column: 1, file: file.path }
    } else {
        let (l, c) = line_col_after(file.chars@, pos.begin + 1);
        TextLoc { line: l as usize, column: c as usize, file: file.path }
    }
}

impl TextPos {
    /// The location of this span's beginning: for an offset inside the file,
    /// the line and column reached after reading up to and including that
    /// character; past the end, the last line and column 1.
    pub fn get_loc(&self, file: &FileInfo) -> (r: TextLoc)
        ensures
            r == spec_get_loc(*self, *file),
    {
        let chars = &file.chars;
        let n = chars.len();
        if self.begin >= n {
            let mut count: usize = 0;
            let mut i: usize = 0;
            while i < n
                invariant
                    n == chars@.len(),
                    i <= n,
                    count == count_newlines(chars@, i as int),
                decreases n - i,
            {
                proof { lemma_line_col_bounds(chars@, i as int); }
                if chars[i] == '\n' {
                    count += 1;
                }
                i += 1;
            }
            proof { lemma_line_col_bounds(chars@, n as int); }
            let line = if count < usize::MAX { count + 1 } else { count };
            return TextLoc { line, column: 1, file: file.path.clone() };
        }
        let mut line: u128 = 1;
        let mut column: u128 = 1;
        let mut i: usize = 0;
        while i <= self.begin
            invariant
                self.begin < n,
                n == chars@.len(),
                i <= self.begin + 1,
                (line as int, column as int) == line_col_after(chars@, i as int),
            decreases self.begin + 1 - i,
        {
            proof { lemma_line_col_bounds(chars@, i as int); }
            if chars[i] == '\n' {
                line += 1;
                column = 0;
            } else {
                column += 1;
            }
            i += 1;
        }
        TextLoc { line: line as usize, column: column as usize, file: file.path.clone() }
    }
}

/// The path of a source file: the path it was read from, when it was read from
/// disk, and its path relative to the source root.
#[derive(Debug, PartialEq, Eq)]
pub struct PathInfo {
    pub full_path: Option<String>,
    pub relative_path: String,
}

impl Clone for PathInfo {
    fn clone(&self) -> (r: Self)
        ensures
            r == *self,
    {
        let full_path = match &self.full_path {
            Some(p) => Some(p.clone()),
            None => None,
        };
        PathInfo { full_path, relative_path: self.relative_path.clone() }
    }
}

/// What `std::path::Path::parent` gives for a path (as text).
pub uninterp spec fn std_path_parent(path: Seq<char>) -> Option<Seq<char>>;

/// The texts of all the components that `std::path::Path::components` yields, in order (the root, `.` and `..` included).
pub uninterp spec fn std_path_components(path: Seq<char>) -> Seq<Seq<char>>;

/// What `std::path::Path::file_stem` gives for a path (as text).
pub uninterp spec fn std_path_file_stem(path: Seq<char>) -> Option<Seq<char>>;

/// `Path::new(path).parent()`, as text.
#[verifier::external_body]
fn path_parent(path: &str) -> (r: Option<String>)
    ensures
        match r {
            Some(p) => std_path_parent(path@) == Some(p@),
            None => std_path_parent(path@) is None,
        },
{
    std::path::Path::new(path).parent().map(|p| p.to_string_lossy().to_string())
}

/// `Path::new(path).components()`, each component as text.
#[verifier::external_body]
fn path_components(path: &str) -> (r: Vec<String>)
    ensures
        r@.len() == std_path_components(path@).len(),
        forall|i: int| 0 <= i < r@.len() ==> #[trigger] r@[i]@ == std_path_components(path@)[i],
{
    std::path::Path::new(path).components().map(|c| c.as_os_str().to_string_lossy().to_string()).collect()
}

/// `Path::new(path).file_stem()`, as text.
#[verifier::external_body]
fn path_file_stem(path: &str) -> (r: Option<String>)
    ensures
        match r {
            Some(p) => std_path_file_stem(path@) == Some(p@),
            None => std_path_file_stem(path@) is None,
        },
{
    std::path::Path::new(path).file_stem().map(|p| p.to_string_lossy().to_string())
}

/// What `std::path::Path::extension` gives for a path (as text).
pub uninterp spec fn std_path_extension(path: Seq<char>) -> Option<Seq<char>>;

/// `Path::new(path).extension()`, as text.
#[verifier::external_body]
fn path_extension(path: &str) -> (r: Option<String>)
    ensures
        match r {
            Some(e) => std_path_extension(path@) == Some(e@),
            None => std_path_extension(path@) is None,
        },
{
    std::path::Path::new(path).extension().map(|e| e.to_string_lossy().to_string())
}

/// Whether the file name of `path` has extension `ext` (the text after its last dot).
pub fn has_valid_extension(path: &str, ext: &str) -> (r: bool)
    ensures
        r == (std_path_extension(path@) == Some(ext@)),
{
    match path_extension(path) {
        Some(e) => crate::text::str_eq(e.as_str(), ext),
        None => false,
    }
}

/// The module path of a relative file path: the components of its parent
/// directory followed by the file's stem.
pub open spec fn spec_split_relative(path: Seq<char>) -> Seq<Seq<char>> {
    let parent = match std_path_parent(path) {
        Some(p) => p,
        None => Seq::<char>::empty(),
    };
    module_parts(std_path_components(parent), std_path_file_stem(path))
}

/// A module path made of the components of a file's parent directory and the
/// file's stem, when it has one.
pub open spec fn module_parts(comps: Seq<Seq<char>>, stem: Option<Seq<char>>) -> Seq<Seq<char>> {
    match stem {
        Some(s) => comps.push(s),
        None => comps,
    }
}

/// The module path of a file from the components of its parent directory and
/// its stem: the components, then the stem when there is one.
pub fn join_module_parts(comps: Vec<String>, stem: Option<String>) -> (r: Vec<String>)
    ensures
        strings_view(r@) == module_parts(strings_view(comps@), match stem {
            Some(s) => Some(s@),
            None => None,
        }),
{
    let mut parts = comps;
    let ghost before = parts@;
    match stem {
        Some(s) => {
            parts.push(s);
            assert(strings_view(parts@) =~= strings_view(before).push(s@));
        },
        None => {},
    }
    parts
}

/// The views of a sequence of strings.
pub open spec fn strings_view(v: Seq<String>) -> Seq<Seq<char>> {
    v.map_values(|s: String| s@)
}

impl PathInfo {
    pub fn split_relative(&self) -> (r: Vec<String>)
        ensures
            strings_view(r@) == spec_split_relative(self.relative_path@),
    {
        let parent = match path_parent(self.relative_path.as_str()) {
            Some(p) => p,
            None => String::new(),
        };
        let parts = path_components(parent.as_str());
        assert(strings_view(parts@) =~= std_path_components(parent@));
        let stem = path_file_stem(self.relative_path.as_str());
        join_module_parts(parts, stem)
    }
}

/// A source file: an identifier, its path and its characters.
#[derive(Debug)]
pub struct FileInfo {
    pub id: u128,
    pub path: PathInfo,
    pub chars: Vec<char>,
}

/// A fresh random identifier (`uuid::Uuid::new_v4`, as a 128-bit integer).
/// Nothing is promised of its value: it is random.
#[verifier::external_body]
fn new_random_id() -> u128 {
    uuid::Uuid::new_v4().as_u128()
}

impl FileInfo {
    pub fn new(src: String, path: PathInfo) -> (r: Self)
        ensures
            r.path == path,
            r.chars@ == src@,
    {
        let chars = crate::text::str_to_chars(src.as_str());
        FileInfo { id: new_random_id(), path, chars }
    }

    pub fn from_text(src: &str, path: String) -> (r: Self)
        ensures
            r.path.full_path is None,
            r.path.relative_path@ == path@,
            r.chars@ == src@,
    {
        let path = PathInfo { full_path: None, relative_path: path };
        let chars = crate::text::str_to_chars(src);
        FileInfo { id: new_random_id(), path, chars }
    }

    pub fn as_arc(self) -> (r: std::sync::Arc<Self>)
        ensures
            *r == self,
    {
        std::sync::Arc::new(self)
    }
}

/// Splits results into the successful values and the errors, each in order.
pub open spec fn oks_of<T, E>(rs: Seq<Result<T, E>>) -> Seq<T>
    decreases rs.len(),
{
    if rs.len() == 0 {
        Seq::empty()
    } else {
        match rs.last() {
            Ok(v) => oks_of(rs.drop_last()).push(v),
            Err(_) => oks_of(rs.drop_last()),
        }
    }
}

pub open spec fn errs_of<T, E>(rs: Seq<Result<T, E>>) -> Seq<E>
    decreases rs.len(),
{
    if rs.len() == 0 {
        Seq::empty()
    } else {
        match rs.last() {
            Ok(_) => errs_of(rs.drop_last()),
            Err(e) => errs_of(rs.drop_last()).push(e),
        }
    }
}

/// All values when every result succeeded, otherwise all errors.
pub fn partition_errors<T, E>(results: Vec<Result<T, E>>) -> (r: Result<Vec<T>, Vec<E>>)
    ensures
        match r {
            Ok(oks) => errs_of(results@).len() == 0 && oks@ == oks_of(results@),
            Err(errs) => errs_of(results@).len() > 0 && errs@ == errs_of(results@),
        },
{
    let mut oks: Vec<T> = Vec::new();
    let mut errs: Vec<E> = Vec::new();
    let ghost all = results@;
    let mut results = results;
    let ghost mut k: int = 0;
    while results.len() > 0
        invariant
            0 <= k <= all.len(),
            results@ == all.skip(k),
            oks@ == oks_of(all.take(k)),
            errs@ == errs_of(all.take(k)),
        decreases results.len(),
    {
        let x = results.remove(0);
        proof {
            assert(all.take(k + 1).drop_last() =~= all.take(k));
            assert(all.take(k + 1).last() == x);
            k = k + 1;
            assert(results@ =~= all.skip(k));
        }
        match x {
            Ok(v) => oks.push(v),
            Err(e) => errs.push(e),
        }
    }
    assert(all.take(k) =~= all);
    if errs.len() == 0 {
        Ok(oks)
    } else {
        Err(errs)
    }
}

} // verus!
