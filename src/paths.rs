//! Paths as `/`-separated strings, and validated single-segment names.

use vstd::prelude::*;
use vstd::string::*;

verus! {

/// The texts of a list of strings.
pub open spec fn texts(v: Seq<String>) -> Seq<Seq<char>> {
    v.map_values(|s: String| s@)
}

/// Whether no text occurs twice in `s`.
pub open spec fn no_repeats(s: Seq<Seq<char>>) -> bool {
    forall|i: int, j: int| 0 <= i < j < s.len() ==> s[i] != s[j]
}

/// Whether no two of the strings `v` hold the same text.
pub fn all_distinct(v: &Vec<String>) -> (r: bool)
    ensures
        r == no_repeats(texts(v@)),
{
    let mut j: usize = 0;
    while j < v.len()
        invariant
            j <= v@.len(),
            forall|a: int, b: int| 0 <= a < b < j ==> v@[a]@ != v@[b]@,
        decreases v@.len() - j,
    {
        let mut k: usize = 0;
        while k < j
            invariant
                k <= j < v@.len(),
                forall|a: int| 0 <= a < k ==> v@[a]@ != v@[j as int]@,
            decreases j - k,
        {
            if same_text(v[k].as_str(), v[j].as_str()) {
                assert(texts(v@)[k as int] == texts(v@)[j as int]);
                return false;
            }
            k = k + 1;
        }
        j = j + 1;
    }
    assert forall|a: int, b: int| 0 <= a < b < texts(v@).len() implies texts(v@)[a] != texts(
        v@,
    )[b] by {
        assert(texts(v@)[a] == v@[a]@);
        assert(texts(v@)[b] == v@[b]@);
    }
    true
}

/// Distinct names give distinct paths inside one directory.
pub proof fn lemma_joined_injective(base: Seq<char>, a: Seq<char>, b: Seq<char>)
    ensures
        joined(base, a) == joined(base, b) ==> a == b,
{
    if joined(base, a) == joined(base, b) {
        let n = base.len() as int + 1;
        assert(joined(base, a).subrange(n, joined(base, a).len() as int) =~= a);
        assert(joined(base, b).subrange(n, joined(base, b).len() as int) =~= b);
    }
}

/// Whether a `..` segment starts at position `i` of `p`.
pub open spec fn parent_segment_at(p: Seq<char>, i: int) -> bool {
    &&& 0 <= i && i + 1 < p.len()
    &&& p[i] == '.' && p[i + 1] == '.'
    &&& i == 0 || p[i - 1] == '/'
    &&& i + 2 == p.len() || p[i + 2] == '/'
}

/// Whether the relative path `p`, taken inside a directory, stays inside
/// it: it is not absolute, has no `..` segment, and holds neither a
/// backslash nor a colon, which some systems read as a separator or a
/// drive.
pub open spec fn stays_inside(p: Seq<char>) -> bool {
    &&& p.len() == 0 || p[0] != '/'
    &&& forall|i: int| 0 <= i < p.len() ==> p[i] != '\\' && p[i] != ':'
    &&& forall|i: int| !parent_segment_at(p, i)
}

/// Tells whether the relative path `p` stays inside the directory it is
/// taken in.
pub fn stays_inside_dir(p: &str) -> (r: bool)
    ensures
        r == stays_inside(p@),
{
    let n = p.unicode_len();
    if n > 0 && p.get_char(0) == '/' {
        return false;
    }
    let mut i: usize = 0;
    while i < n
        invariant
            n == p@.len(),
            i <= n,
            n == 0 || p@[0] != '/',
            forall|j: int| 0 <= j < i ==> p@[j] != '\\' && p@[j] != ':',
            forall|j: int| 0 <= j < i ==> !parent_segment_at(p@, j),
        decreases n - i,
    {
        let c = p.get_char(i);
        if c == '\\' || c == ':' {
            return false;
        }
        if c == '.' && i + 1 < n && p.get_char(i + 1) == '.' && (i == 0 || p.get_char(i - 1)
            == '/') && (i + 2 == n || p.get_char(i + 2) == '/') {
            assert(parent_segment_at(p@, i as int));
            return false;
        }
        i = i + 1;
    }
    assert forall|j: int| !parent_segment_at(p@, j) by {
        if 0 <= j < n {
        }
    }
    true
}

/// `name` placed inside the directory `base`.
pub open spec fn joined(base: Seq<char>, name: Seq<char>) -> Seq<char> {
    base + seq!['/'] + name
}

/// Builds the path of `name` inside the directory `base`.
pub fn join(base: &str, name: &str) -> (r: String)
    ensures
        r@ == joined(base@, name@),
{
    let mut r = base.to_owned();
    proof {
        reveal_strlit("/");
    }
    r.append("/");
    r.append(name);
    r
}

/// Whether the two strings hold the same characters.
pub fn same_text(a: &str, b: &str) -> (r: bool)
    ensures
        r == (a@ == b@),
{
    let n = a.unicode_len();
    if n != b.unicode_len() {
        return false;
    }
    let mut i: usize = 0;
    while i < n
        invariant
            n == a@.len() == b@.len(),
            i <= n,
            forall|j: int| 0 <= j < i ==> a@[j] == b@[j],
        decreases n - i,
    {
        if a.get_char(i) != b.get_char(i) {
            return false;
        }
        i = i + 1;
    }
    assert(a@ =~= b@);
    true
}

/// Whether `s` ends with `suffix`.
pub open spec fn ends_with(s: Seq<char>, suffix: Seq<char>) -> bool {
    s.len() >= suffix.len() && s.subrange(s.len() - suffix.len(), s.len() as int) == suffix
}

/// A valid object name: one non-empty path segment that neither names the
/// current nor the parent directory.
pub open spec fn is_obj_name(s: Seq<char>) -> bool {
    &&& s.len() > 0
    &&& forall|i: int| 0 <= i < s.len() ==> s[i] != '/' && s[i] != '\\'
    &&& s != seq!['.']
    &&& s != seq!['.', '.']
}

/// Tells whether `s` is a valid object name.
pub fn is_obj_name_str(s: &str) -> (r: bool)
    ensures
        r == is_obj_name(s@),
{
    let n = s.unicode_len();
    if n == 0 {
        return false;
    }
    let mut i: usize = 0;
    while i < n
        invariant
            n == s@.len(),
            i <= n,
            forall|j: int| 0 <= j < i ==> s@[j] != '/' && s@[j] != '\\',
        decreases n - i,
    {
        let c = s.get_char(i);
        if c == '/' || c == '\\' {
            return false;
        }
        i = i + 1;
    }
    if n == 1 && s.get_char(0) == '.' {
        assert(s@ =~= seq!['.']);
        return false;
    }
    if n == 2 && s.get_char(0) == '.' && s.get_char(1) == '.' {
        assert(s@ =~= seq!['.', '.']);
        return false;
    }
    proof {
        if n == 1 {
            assert(s@ != seq!['.']);
        }
    }
    true
}

/// A name of a file or directory that is a single path segment, so that
/// joining it to a directory never leaves that directory.
#[derive(Debug)]
pub struct ObjName {
    name: String,
}

impl ObjName {
    pub closed spec fn view(&self) -> Seq<char> {
        self.name@
    }

    pub closed spec fn wf(&self) -> bool {
        is_obj_name(self.name@)
    }

    /// Validates `s` as an object name.
    pub fn new(s: &str) -> (r: Option<ObjName>)
        ensures
            r is Some <==> is_obj_name(s@),
            r matches Some(n) ==> n@ == s@ && n.wf(),
    {
        if !is_obj_name_str(s) {
            return None;
        }
        Some(ObjName { name: s.to_owned() })
    }

    pub fn as_str(&self) -> (r: &str)
        ensures
            r@ == self@,
    {
        self.name.as_str()
    }
}

} // verus!
