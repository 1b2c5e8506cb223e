//! Adding a theme straight from a URL.

use vstd::prelude::*;
use crate::paths::ends_with;

verus! {

/// How a theme's source is fetched.
#[derive(Clone, Copy, Debug, PartialEq, Eq, Structural)]
pub enum UrlType {
    Git,
    Zip,
}

/// The kind of source that a URL names by its ending, if any: a `.git`
/// repository, or a `.zip` archive.
pub open spec fn url_type_of(url: Seq<char>) -> Option<UrlType> {
    if ends_with(url, seq!['.', 'g', 'i', 't']) {
        Some(UrlType::Git)
    } else if ends_with(url, seq!['.', 'z', 'i', 'p']) {
        Some(UrlType::Zip)
    } else {
        None
    }
}

fn ends_with_ext(url: &str, a: char, b: char, c: char) -> (r: bool)
    ensures
        r == ends_with(url@, seq!['.', a, b, c]),
{
    let n = url.unicode_len();
    if n < 4 {
        return false;
    }
    let r = url.get_char(n - 4) == '.' && url.get_char(n - 3) == a && url.get_char(n - 2) == b
        && url.get_char(n - 1) == c;
    proof {
        let tail = url@.subrange(n - 4, n as int);
        if r {
            assert(tail =~= seq!['.', a, b, c]);
        } else {
            assert(tail[0] == url@[n - 4]);
            assert(tail[1] == url@[n - 3]);
            assert(tail[2] == url@[n - 2]);
            assert(tail[3] == url@[n - 1]);
        }
    }
    r
}

impl UrlType {
    /// Tells the kind of source from the URL's ending.
    pub fn from_url(url: &str) -> (r: Option<UrlType>)
        ensures
            r == url_type_of(url@),
    {
        if ends_with_ext(url, 'g', 'i', 't') {
            Some(UrlType::Git)
        } else if ends_with_ext(url, 'z', 'i', 'p') {
            Some(UrlType::Zip)
        } else {
            None
        }
    }
}

} // verus!
