use vstd::prelude::*;

use crate::tree::path_view;

verus! {

broadcast use vstd::std_specs::vec::group_vec_axioms;

#[verifier::external_type_specification]
#[verifier::external_body]
pub struct ExRegex(regex::Regex);

#[verifier::external_type_specification]
#[verifier::external_body]
pub struct ExRegexError(regex::Error);

/// Whether the regex crate accepts `pattern` as a regular expression.
pub uninterp spec fn compiles(pattern: Seq<char>) -> bool;

/// The leftmost-first match of `pattern` in `haystack`, as the text before
/// the match, the match itself and the text after it.
pub uninterp spec fn first_match(pattern: Seq<char>, haystack: Seq<char>) -> Option<
    (Seq<char>, Seq<char>, Seq<char>),
>;

/// Relies on regex::Regex::new: whether the pattern compiles depends on its text alone.
#[verifier::external_body]
fn compile(pattern: &str) -> (r: Result<regex::Regex, regex::Error>)
    ensures
        r is Ok <==> compiles(pattern@),
{
    regex::Regex::new(pattern)
}

/// Relies on regex::Regex::find: the leftmost-first match of the pattern,
/// whose start and end fall on character boundaries of `haystack`; the three
/// parts are the haystack cut at those offsets.
#[verifier::external_body]
fn find_parts(p: &Pattern, haystack: &str) -> (r: Option<(String, String, String)>)
    ensures
        match r {
            Some(t) => {
                &&& first_match(p.text(), haystack@) == Some((t.0@, t.1@, t.2@))
                &&& t.0@ + t.1@ + t.2@ == haystack@
            },
            None => first_match(p.text(), haystack@) is None,
        },
{
    match p.re.find(haystack) {
        Some(m) => Some(
            (
                haystack[..m.start()].to_string(),
                m.as_str().to_string(),
                haystack[m.end()..].to_string(),
            ),
        ),
        None => None,
    }
}

/// Why a search pattern was refused.
#[derive(Debug, PartialEq, Eq, Structural)]
pub enum PatternError {
    /// The text is not a regular expression that can be compiled.
    Invalid,
}

/// A compiled regular expression together with the text it was compiled from.
pub struct Pattern {
    source: String,
    re: regex::Regex,
}

impl Pattern {
    /// The text the pattern was compiled from.
    pub closed spec fn text(&self) -> Seq<char> {
        self.source@
    }

    /// Compiles `pattern`; fails exactly when the text is not a valid regular expression.
    pub fn new(pattern: &str) -> (r: Result<Pattern, PatternError>)
        ensures
            r is Ok <==> compiles(pattern@),
            r is Ok ==> r->Ok_0.text() == pattern@,
            r is Err ==> r->Err_0 == PatternError::Invalid,
    {
        match compile(pattern) {
            Ok(re) => Ok(Pattern { source: pattern.to_owned(), re }),
            Err(_) => Err(PatternError::Invalid),
        }
    }

    /// The text the pattern was compiled from.
    pub fn as_str(&self) -> (r: &str)
        ensures
            r@ == self.text(),
    {
        self.source.as_str()
    }
}

/// A file whose name matched: its directory relative to the search root, and
/// its name cut around the match.
pub struct Hit {
    pub parent: Vec<String>,
    pub before: String,
    pub matched: String,
    pub after: String,
}

/// A hit as its relative parent, and the text before, of and after the match.
pub open spec fn hit_view(h: Hit) -> (Seq<Seq<char>>, Seq<char>, Seq<char>, Seq<char>) {
    (path_view(h.parent@), h.before@, h.matched@, h.after@)
}

/// `p` with the leading segments `root` taken off, where `p` starts with them.
pub open spec fn relative_to(root: Seq<Seq<char>>, p: Seq<Seq<char>>) -> Seq<Seq<char>> {
    if root.is_prefix_of(p) {
        p.subrange(root.len() as int, p.len() as int)
    } else {
        p
    }
}

/// What the search reports for the file at `file`: nothing for an empty path
/// or a name without a match, else the parent relative to `root` and the name
/// cut around the first match.
pub open spec fn file_hit(pattern: Seq<char>, root: Seq<Seq<char>>, file: Seq<Seq<char>>) -> Option<
    (Seq<Seq<char>>, Seq<char>, Seq<char>, Seq<char>),
> {
    if file.len() == 0 {
        None
    } else {
        match first_match(pattern, file.last()) {
            Some(parts) => Some(
                (relative_to(root, file.drop_last()), parts.0, parts.1, parts.2),
            ),
            None => None,
        }
    }
}

/// The hits for the first `k` of `files`, in order.
pub open spec fn hits(pattern: Seq<char>, root: Seq<Seq<char>>, files: Seq<Seq<Seq<char>>>, k: int) -> Seq<
    (Seq<Seq<char>>, Seq<char>, Seq<char>, Seq<char>),
>
    decreases k,
{
    if k <= 0 {
        seq![]
    } else {
        match file_hit(pattern, root, files[k - 1]) {
            Some(h) => hits(pattern, root, files, k - 1).push(h),
            None => hits(pattern, root, files, k - 1),
        }
    }
}

/// Whether the segments of `p` begin with those of `prefix`.
pub fn starts_with(p: &Vec<String>, prefix: &Vec<String>) -> (r: bool)
    ensures
        r == path_view(prefix@).is_prefix_of(path_view(p@)),
{
    if prefix.len() > p.len() {
        return false;
    }
    let mut i: usize = 0;
    while i < prefix.len()
        invariant
            i <= prefix.len() <= p.len(),
            forall|j: int| 0 <= j < i ==> prefix@[j]@ == p@[j]@,
        decreases prefix.len() - i,
    {
        if prefix[i] != p[i] {
            assert(path_view(prefix@)[i as int] != path_view(p@).subrange(0, prefix.len() as int)[i as int]);
            return false;
        }
        i = i + 1;
    }
    assert(path_view(prefix@) =~= path_view(p@).subrange(0, prefix@.len() as int));
    true
}

/// The report for one file path, if its name matches `pattern`.
pub fn match_file(pattern: &Pattern, root: &Vec<String>, file: &Vec<String>) -> (r: Option<Hit>)
    ensures
        match r {
            Some(h) => file_hit(pattern.text(), path_view(root@), path_view(file@)) == Some(hit_view(h)),
            None => file_hit(pattern.text(), path_view(root@), path_view(file@)) is None,
        },
{
    let n = file.len();
    if n == 0 {
        return None;
    }
    let ghost fv = path_view(file@);
    assert(fv.last() == file@[n - 1]@);
    match find_parts(pattern, file[n - 1].as_str()) {
        None => None,
        Some(parts) => {
            let skip: usize = if starts_with(file, root) && root.len() <= n - 1 {
                root.len()
            } else {
                0
            };
            let mut parent: Vec<String> = Vec::new();
            let mut i: usize = skip;
            while i < n - 1
                invariant
                    skip <= i <= n - 1,
                    n == file.len(),
                    path_view(parent@) == path_view(file@).subrange(skip as int, i as int),
                decreases n - 1 - i,
            {
                let ghost old_parent = parent@;
                let seg = file[i].clone();
                parent.push(seg);
                assert(parent@ == old_parent.push(file@[i as int]));
                assert(path_view(parent@) =~= path_view(old_parent).push(file@[i as int]@));
                assert(path_view(parent@) =~= path_view(file@).subrange(skip as int, i + 1));
                i = i + 1;
            }
            let ghost pv = fv.drop_last();
            assert(path_view(root@).is_prefix_of(pv) <==> (path_view(root@).is_prefix_of(fv)
                && root.len() <= n - 1));
            assert(path_view(parent@) =~= relative_to(path_view(root@), pv));
            Some(Hit { parent, before: parts.0, matched: parts.1, after: parts.2 })
        },
    }
}

/// The reports for every path of `files` whose name matches `pattern`, in order.
pub fn find_matches(pattern: &Pattern, root: &Vec<String>, files: &Vec<Vec<String>>) -> (r: Vec<Hit>)
    ensures
        r@.map_values(|h: Hit| hit_view(h)) == hits(
            pattern.text(),
            path_view(root@),
            files@.map_values(|p: Vec<String>| path_view(p@)),
            files.len() as int,
        ),
{
    let ghost fs = files@.map_values(|p: Vec<String>| path_view(p@));
    let mut r: Vec<Hit> = Vec::new();
    let mut i: usize = 0;
    while i < files.len()
        invariant
            i <= files.len(),
            fs == files@.map_values(|p: Vec<String>| path_view(p@)),
            r@.map_values(|h: Hit| hit_view(h)) == hits(pattern.text(), path_view(root@), fs, i as int),
        decreases files.len() - i,
    {
        let ghost before = r@.map_values(|h: Hit| hit_view(h));
        assert(fs[i as int] == path_view(files@[i as int]@));
        match match_file(pattern, root, &files[i]) {
            Some(h) => {
                r.push(h);
                assert(r@.map_values(|h: Hit| hit_view(h)) =~= before.push(hit_view(r@.last())));
            },
            None => {},
        }
        i = i + 1;
    }
    r
}

} // verus!
