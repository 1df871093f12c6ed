//! Platform-independent relative paths, and how a URL is made relative to
//! another.
use vstd::prelude::*;
use vstd::string::{StrSliceExecFns, StringExecFns};
use crate::config::chars_of;
use crate::text::{split_on, split_str};

verus! {

/// A platform-independent relative path that does not contain a `..`.
#[derive(Clone, Debug)]
pub struct RelativePath(String);

/// A path that was refused, handed back.
pub struct BadRelativePath(pub String);

/// The parts of a URL that relative paths depend on.
pub struct UrlParts {
    /// The URL has no hierarchical path (such as `mailto:` URLs).
    pub cannot_be_a_base: bool,
    pub scheme: String,
    pub host: Option<String>,
    pub port: Option<u16>,
    /// The path, starting with `/` for hierarchical URLs.
    pub path: String,
}

/// `c` occurs in `s`.
pub open spec fn has_char(s: Seq<char>, c: char) -> bool {
    exists|i: int| 0 <= i < s.len() && s[i] == c
}

/// A valid relative path: not empty, free of `\`, `:` and NUL, and with no
/// empty or `..` component between its slashes.
pub open spec fn valid_relative(s: Seq<char>) -> bool {
    &&& s.len() > 0
    &&& !has_char(s, '\\')
    &&& !has_char(s, ':')
    &&& !has_char(s, '\0')
    &&& forall|i: int|
        0 <= i < split_on(s, '/').len() ==> #[trigger] split_on(s, '/')[i] != Seq::<char>::empty()
            && split_on(s, '/')[i] != ".."@
}

impl View for RelativePath {
    type V = Seq<char>;

    closed spec fn view(&self) -> Seq<char> {
        self.0@
    }
}

/// True when `c` occurs in `s`.
fn contains_char(s: &[char], c: char) -> (res: bool)
    ensures
        res == has_char(s@, c),
{
    let mut i: usize = 0;
    while i < s.len()
        invariant
            i <= s@.len(),
            forall|j: int| 0 <= j < i ==> s@[j] != c,
        decreases s@.len() - i,
    {
        if s[i] == c {
            return true;
        }
        i = i + 1;
    }
    false
}

impl RelativePath {
    /// Accepts `value` as a relative path when it is valid, else hands it back.
    pub fn try_from(value: String) -> (res: Result<RelativePath, BadRelativePath>)
        ensures
            match res {
                Ok(p) => valid_relative(value@) && p@ == value@,
                Err(b) => !valid_relative(value@) && b.0@ == value@,
            },
    {
        let c = chars_of(value.as_str());
        let cs = c.as_slice();
        if c.len() == 0 || contains_char(cs, '\\') || contains_char(cs, ':') || contains_char(
            cs,
            '\0',
        ) {
            return Err(BadRelativePath(value));
        }
        let parts = split_str(value.as_str(), '/');
        let mut i: usize = 0;
        while i < parts.len()
            invariant
                i <= parts@.len(),
                parts@.len() == split_on(value@, '/').len(),
                forall|j: int| 0 <= j < parts@.len() ==> #[trigger] parts@[j]@ == split_on(value@, '/')[j],
                forall|j: int|
                    0 <= j < i ==> #[trigger] split_on(value@, '/')[j] != Seq::<char>::empty()
                        && split_on(value@, '/')[j] != ".."@,
            decreases parts@.len() - i,
        {
            let p = chars_of(parts[i].as_str());
            if p.len() == 0 || crate::config::chars_are(p.as_slice(), "..") {
                proof {
                    assert(split_on(value@, '/')[i as int] == parts@[i as int]@);
                    if p@.len() == 0 {
                        assert(p@ =~= Seq::<char>::empty());
                    }
                    assert(!valid_relative(value@));
                }
                return Err(BadRelativePath(value));
            }
            i = i + 1;
        }
        Ok(RelativePath(value))
    }

    /// The path as a string slice.
    pub fn as_str(&self) -> (res: &str)
        ensures
            res@ == self@,
    {
        self.0.as_str()
    }
}

impl std::ops::Deref for RelativePath {
    type Target = str;

    fn deref(&self) -> (res: &str)
        ensures
            res@ == self@,
    {
        self.0.as_str()
    }
}

/// The last index of `c` in `s`, if any.
pub open spec fn last_index_of(s: Seq<char>, c: char) -> Option<int>
    decreases s.len(),
{
    if s.len() == 0 {
        None
    } else if s.last() == c {
        Some(s.len() - 1)
    } else {
        last_index_of(s.drop_last(), c)
    }
}

/// The path of `rel` relative to the directory of `base`: both URLs must
/// agree in scheme, host and port, `base` must be hierarchical, and the
/// path of `rel` must start with that of `base` up to its last `/`; the
/// rest must be a valid relative path.
pub open spec fn spec_from_base(base: UrlParts, rel: UrlParts) -> Option<Seq<char>> {
    relative_of_parts(parts_view(base), parts_view(rel))
}

/// The parts of a URL by their characters: whether it cannot be a base,
/// its scheme, host, port and path.
pub open spec fn parts_view(p: UrlParts) -> (bool, Seq<char>, Option<Seq<char>>, Option<u16>, Seq<char>) {
    (p.cannot_be_a_base, p.scheme@, host_view(p.host), p.port, p.path@)
}

/// `spec_from_base` over the parts of the two URLs.
pub open spec fn relative_of_parts(
    base: (bool, Seq<char>, Option<Seq<char>>, Option<u16>, Seq<char>),
    rel: (bool, Seq<char>, Option<Seq<char>>, Option<u16>, Seq<char>),
) -> Option<Seq<char>> {
    if base.0 || base.1 != rel.1 || base.2 != rel.2 || base.3 != rel.3 {
        None
    } else {
        match last_index_of(base.4, '/') {
            None => None,
            Some(k) => {
                let dir = base.4.subrange(0, k + 1);
                let p = rel.4;
                if dir.len() <= p.len() && p.subrange(0, dir.len() as int) == dir && valid_relative(
                    p.subrange(dir.len() as int, p.len() as int),
                ) {
                    Some(p.subrange(dir.len() as int, p.len() as int))
                } else {
                    None
                }
            },
        }
    }
}

/// The parts of the URL that `text` parses as, if it is one.
pub uninterp spec fn parsed_url(text: Seq<char>) -> Option<
    (bool, Seq<char>, Option<Seq<char>>, Option<u16>, Seq<char>),
>;

/// The parts of the URL `text`.
///
/// Trusted: parses `text` with `url::Url::parse` and takes
/// `cannot_be_a_base`, `scheme`, `host_str`, `port` and `path` of the URL.
/// The contract names the result, which depends on the text alone.
#[verifier::external_body]
fn parse_url(text: &str) -> (res: Option<UrlParts>)
    ensures
        match res {
            Some(p) => parsed_url(text@) == Some(parts_view(p)),
            None => parsed_url(text@) is None,
        },
{
    let url = url::Url::parse(text).ok()?;
    Some(
        UrlParts {
            cannot_be_a_base: url.cannot_be_a_base(),
            scheme: url.scheme().to_owned(),
            host: url.host_str().map(str::to_owned),
            port: url.port(),
            path: url.path().to_owned(),
        },
    )
}

/// A host by its characters.
pub open spec fn host_view(h: Option<String>) -> Option<Seq<char>> {
    match h {
        Some(h) => Some(h@),
        None => None,
    }
}

/// True when the two strings hold the same characters.
fn str_equal(a: &str, b: &str) -> (res: bool)
    ensures
        res == (a@ == b@),
{
    let x = chars_of(a);
    crate::config::chars_are(x.as_slice(), b)
}

/// True when the two optional strings are both absent, or both hold the
/// same characters.
fn host_equal(a: &Option<String>, b: &Option<String>) -> (res: bool)
    ensures
        res == (host_view(*a) == host_view(*b)),
{
    match (a, b) {
        (Some(x), Some(y)) => str_equal(x.as_str(), y.as_str()),
        (None, None) => true,
        _ => false,
    }
}

impl RelativePath {
    /// The path of `rel` relative to the directory holding `base`, if `rel`
    /// lies below it on the same server.
    pub fn from_base(base: &UrlParts, rel: &UrlParts) -> (res: Option<RelativePath>)
        ensures
            match res {
                Some(p) => spec_from_base(*base, *rel) == Some(p@),
                None => spec_from_base(*base, *rel) is None,
            },
    {
        if base.cannot_be_a_base || !str_equal(base.scheme.as_str(), rel.scheme.as_str())
            || !host_equal(&base.host, &rel.host) || base.port != rel.port {
            return None;
        }
        let bp = chars_of(base.path.as_str());
        let mut k: usize = bp.len();
        assert(base.path@.subrange(0, k as int) =~= base.path@);
        while k > 0 && bp[k - 1] != '/'
            invariant
                k <= bp@.len(),
                bp@ == base.path@,
                last_index_of(base.path@, '/') == last_index_of(base.path@.subrange(0, k as int), '/'),
            decreases k,
        {
            assert(base.path@.subrange(0, k as int).drop_last() =~= base.path@.subrange(0, k - 1));
            k = k - 1;
        }
        if k == 0 {
            assert(base.path@.subrange(0, 0).len() == 0);
            return None;
        }
        assert(base.path@.subrange(0, k as int).last() == '/');
        assert(last_index_of(base.path@, '/') == Some(k - 1));
        let rp = chars_of(rel.path.as_str());
        if k > rp.len() {
            return None;
        }
        let mut i: usize = 0;
        while i < k
            invariant
                i <= k <= bp@.len(),
                k <= rp@.len(),
                !base.cannot_be_a_base,
                base.scheme@ == rel.scheme@,
                host_view(base.host) == host_view(rel.host),
                base.port == rel.port,
                last_index_of(base.path@, '/') == Some(k - 1),
                bp@ == base.path@,
                rp@ == rel.path@,
                forall|j: int| 0 <= j < i ==> bp@[j] == rp@[j],
            decreases k - i,
        {
            if bp[i] != rp[i] {
                assert(rel.path@.subrange(0, k as int)[i as int] != base.path@.subrange(0, k as int)[i as int]);
                return None;
            }
            i = i + 1;
        }
        assert(rel.path@.subrange(0, k as int) =~= base.path@.subrange(0, k as int));
        let rest = String::from_str(rel.path.as_str().substring_char(k, rp.len()));
        match RelativePath::try_from(rest) {
            Ok(p) => Some(p),
            Err(_) => None,
        }
    }

    /// The path of the URL `rel` relative to the directory holding the URL
    /// `base`; `None` also when either text is no URL.
    pub fn from_base_text(base: &str, rel: &str) -> (res: Option<RelativePath>)
        ensures
            match (parsed_url(base@), parsed_url(rel@)) {
                (Some(b), Some(r)) => match res {
                    Some(p) => relative_of_parts(b, r) == Some(p@),
                    None => relative_of_parts(b, r) is None,
                },
                _ => res is None,
            },
    {
        let b = match parse_url(base) {
            Some(b) => b,
            None => {
                return None;
            },
        };
        let r = match parse_url(rel) {
            Some(r) => r,
            None => {
                return None;
            },
        };
        RelativePath::from_base(&b, &r)
    }
}

} // verus!
