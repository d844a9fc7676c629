//! Endpoint paths: parsing a concrete path and matching it against a mapping template.
use vstd::prelude::*;
use crate::text::{chars_of, chars_view, same_chars, split_chars, split_on, lemma_split_on_nonempty};

verus! {

/// A concrete path: it starts with `/`, has no empty level (so no `//` and no trailing `/`)
/// and holds no MQTT wildcard (`#`, `+`).
pub open spec fn valid_path(s: Seq<char>) -> bool {
    &&& s.len() > 0
    &&& s[0] == '/'
    &&& forall|i: int| 0 <= i < s.len() ==> #[trigger] s[i] != '#' && s[i] != '+'
    &&& forall|i: int| 0 <= i < s.len() && #[trigger] s[i] == '/' ==> i + 1 < s.len() && s[i + 1] != '/'
}

/// The levels of a path: the pieces between the slashes, without the empty piece before the
/// leading slash.
pub open spec fn levels_of(s: Seq<char>) -> Seq<Seq<char>> {
    split_on(s, '/').drop_first()
}

/// A template level `%{name}` matches any single level.
pub open spec fn is_param(l: Seq<char>) -> bool {
    l.len() >= 3 && l[0] == '%' && l[1] == '{' && l.last() == '}'
}

/// A template level matches a concrete level.
pub open spec fn level_matches(t: Seq<char>, l: Seq<char>) -> bool {
    is_param(t) || t == l
}

/// A mapping template matches a path level by level.
pub open spec fn endpoint_matches(endpoint: Seq<char>, path: Seq<char>) -> bool {
    let e = levels_of(endpoint);
    let p = levels_of(path);
    &&& e.len() == p.len()
    &&& forall|i: int| 0 <= i < e.len() ==> #[trigger] level_matches(e[i], p[i])
}

/// Error of a path that is not a valid endpoint path.
#[derive(Debug, Clone, PartialEq, Eq)]
pub struct InvalidPath {
    pub path: String,
}

/// A parsed and validated endpoint path.
#[derive(Debug)]
pub struct MappingPath {
    path: String,
    levels: Vec<Vec<char>>,
}

impl View for MappingPath {
    type V = Seq<char>;

    closed spec fn view(&self) -> Seq<char> {
        self.path@
    }
}

pub fn is_param_level(l: &Vec<char>) -> (r: bool)
    ensures
        r == is_param(l@),
{
    l.len() >= 3 && l[0] == '%' && l[1] == '{' && l[l.len() - 1] == '}'
}

/// The levels of a path or template.
pub fn path_levels(s: &str) -> (r: Vec<Vec<char>>)
    ensures
        chars_view(r@) == levels_of(s@),
{
    let cs = chars_of(s);
    let mut all = split_chars(&cs, '/');
    proof {
        lemma_split_on_nonempty(s@, '/');
    }
    let _ = all.remove(0);
    assert(chars_view(all@) =~= levels_of(s@));
    all
}

/// Whether the template levels `t` match the path levels `p`.
pub fn levels_match(t: &Vec<Vec<char>>, p: &Vec<Vec<char>>) -> (r: bool)
    ensures
        r == (chars_view(t@).len() == chars_view(p@).len() && forall|i: int|
            0 <= i < chars_view(t@).len() ==> #[trigger] level_matches(
                chars_view(t@)[i],
                chars_view(p@)[i],
            )),
{
    if t.len() != p.len() {
        return false;
    }
    let mut i: usize = 0;
    while i < t.len()
        invariant
            i <= t.len(),
            t.len() == p.len(),
            forall|j: int| 0 <= j < i ==> #[trigger] level_matches(t@[j]@, p@[j]@),
        decreases t.len() - i,
    {
        if !is_param_level(&t[i]) && !same_chars(&t[i], &p[i]) {
            assert(!level_matches(chars_view(t@)[i as int], chars_view(p@)[i as int]));
            return false;
        }
        i = i + 1;
    }
    proof {
        assert forall|j: int| 0 <= j < chars_view(t@).len() implies #[trigger] level_matches(
            chars_view(t@)[j],
            chars_view(p@)[j],
        ) by {
            assert(level_matches(t@[j]@, p@[j]@));
        }
    }
    true
}

/// Whether `s` is a valid path.
pub fn check_path(s: &str) -> (r: bool)
    ensures
        r == valid_path(s@),
{
    let cs = chars_of(s);
    let n = cs.len();
    if n == 0 || cs[0] != '/' {
        return false;
    }
    let mut i: usize = 0;
    while i < n
        invariant
            n == cs@.len(),
            cs@ == s@,
            i <= n,
            forall|j: int| 0 <= j < i ==> #[trigger] cs@[j] != '#' && cs@[j] != '+',
            forall|j: int| 0 <= j < i && #[trigger] cs@[j] == '/' ==> j + 1 < n && cs@[j + 1] != '/',
        decreases n - i,
    {
        let c = cs[i];
        if c == '#' || c == '+' {
            return false;
        }
        if c == '/' && (i + 1 >= n || cs[i + 1] == '/') {
            return false;
        }
        i = i + 1;
    }
    true
}

impl MappingPath {
    /// Parses a concrete endpoint path.
    pub fn try_from(s: &str) -> (r: Result<MappingPath, InvalidPath>)
        ensures
            valid_path(s@) <==> r is Ok,
            r matches Ok(p) ==> p@ == s@ && p.wf(),
            r matches Err(e) ==> e.path@ == s@,
    {
        if !check_path(s) {
            return Err(InvalidPath { path: String::from_str(s) });
        }
        let levels = path_levels(s);
        Ok(MappingPath { path: String::from_str(s), levels })
    }

    /// The path is valid and its levels are those of its text.
    pub closed spec fn wf(&self) -> bool {
        &&& valid_path(self.path@)
        &&& chars_view(self.levels@) == levels_of(self.path@)
    }

    /// The path as text.
    pub fn as_str(&self) -> (r: &str)
        ensures
            r@ == self@,
    {
        self.path.as_str()
    }

    /// Whether the template `endpoint` matches this path.
    pub fn matches_endpoint(&self, endpoint: &str) -> (r: bool)
        requires
            self.wf(),
        ensures
            r == endpoint_matches(endpoint@, self@),
    {
        let t = path_levels(endpoint);
        levels_match(&t, &self.levels)
    }
}

} // verus!
