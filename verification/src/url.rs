//! The URLs of Payjoin Directories and OHTTP relays.
//!
//! A URL is `scheme://authority/path?query#fragment`. The scheme and the authority do not
//! depend on case and are kept in lower case; a missing path stands for `/`.
use vstd::prelude::*;
use vstd::string::*;

use crate::text::{chars_of, concat, lower_char, lowered, string_of, to_lower};

verus! {

/// Why a text is not a URL.
#[derive(Debug, Clone, Copy, PartialEq, Eq)]
pub enum UrlParseError {
    /// There is no `://`.
    MissingScheme,
    /// What stands before `://` is not a scheme.
    InvalidScheme,
    /// Nothing stands between `://` and the path.
    EmptyHost,
}

impl UrlParseError {
    /// The message shown for this error.
    pub open spec fn spec_message(self) -> Seq<char> {
        match self {
            UrlParseError::MissingScheme => "missing scheme"@,
            UrlParseError::InvalidScheme => "invalid scheme"@,
            UrlParseError::EmptyHost => "empty host"@,
        }
    }

    /// The message shown for this error.
    pub fn message(&self) -> (r: String)
        ensures
            r@ == self.spec_message(),
    {
        match self {
            Self::MissingScheme => "missing scheme".to_owned(),
            Self::InvalidScheme => "invalid scheme".to_owned(),
            Self::EmptyHost => "empty host".to_owned(),
        }
    }
}

/// A URL with an authority.
#[derive(Debug, PartialEq, Eq)]
pub struct Url {
    pub scheme: String,
    pub authority: String,
    pub path: String,
    pub query: Option<String>,
    pub fragment: Option<String>,
}

/// What a URL says.
pub struct UrlModel {
    pub scheme: Seq<char>,
    pub authority: Seq<char>,
    pub path: Seq<char>,
    pub query: Option<Seq<char>>,
    pub fragment: Option<Seq<char>>,
}

/// The characters of an optional text.
pub open spec fn optional_text(s: Option<String>) -> Option<Seq<char>> {
    match s {
        Some(t) => Some(t@),
        None => None,
    }
}

impl View for Url {
    type V = UrlModel;

    open spec fn view(&self) -> UrlModel {
        UrlModel {
            scheme: self.scheme@,
            authority: self.authority@,
            path: self.path@,
            query: optional_text(self.query),
            fragment: optional_text(self.fragment),
        }
    }
}

impl Clone for Url {
    fn clone(&self) -> (r: Self)
        ensures
            r == *self,
    {
        Url {
            scheme: self.scheme.clone(),
            authority: self.authority.clone(),
            path: self.path.clone(),
            query: clone_optional(&self.query),
            fragment: clone_optional(&self.fragment),
        }
    }
}

fn clone_optional(s: &Option<String>) -> (r: Option<String>)
    ensures
        r == *s,
{
    match s {
        Some(t) => Some(t.clone()),
        None => None,
    }
}

/// Whether `c` ends an authority.
pub open spec fn ends_authority(c: char) -> bool {
    c == '/' || c == '?' || c == '#'
}

/// Whether `c` ends a path.
pub open spec fn ends_path(c: char) -> bool {
    c == '?' || c == '#'
}

/// Whether `c` ends a query.
pub open spec fn ends_query(c: char) -> bool {
    c == '#'
}

/// The first position from `from` on at which `stop` holds, or the length of `s`.
pub open spec fn first_stop(s: Seq<char>, from: int, stop: spec_fn(char) -> bool) -> int
    decreases s.len() - from,
{
    if from < 0 || from >= s.len() {
        s.len() as int
    } else if stop(s[from]) {
        from
    } else {
        first_stop(s, from + 1, stop)
    }
}

/// Whether `://` stands at position `i`.
pub open spec fn scheme_end_at(s: Seq<char>, i: int) -> bool {
    0 <= i && i + 3 <= s.len() && s[i] == ':' && s[i + 1] == '/' && s[i + 2] == '/'
}

/// The first position from `from` on at which `://` stands.
pub open spec fn scheme_end(s: Seq<char>, from: int) -> Option<int>
    decreases s.len() - from,
{
    if from < 0 || from >= s.len() {
        None
    } else if scheme_end_at(s, from) {
        Some(from)
    } else {
        scheme_end(s, from + 1)
    }
}

/// Whether `c` may start a scheme.
pub open spec fn is_letter(c: char) -> bool {
    ('a' <= c && c <= 'z') || ('A' <= c && c <= 'Z')
}

/// Whether `c` may stand in a scheme.
pub open spec fn is_scheme_char(c: char) -> bool {
    is_letter(c) || ('0' <= c && c <= '9') || c == '+' || c == '-' || c == '.'
}

/// Whether `s` is a scheme: a letter, then letters, digits, `+`, `-` or `.`.
pub open spec fn is_scheme(s: Seq<char>) -> bool {
    &&& s.len() > 0
    &&& is_letter(s[0])
    &&& forall|i: int| 0 <= i < s.len() ==> is_scheme_char(#[trigger] s[i])
}

/// What stands from `at` on, after the authority: path, query and fragment.
pub open spec fn parse_rest(s: Seq<char>, at: int) -> (
    Seq<char>,
    Option<Seq<char>>,
    Option<Seq<char>>,
) {
    let n = s.len() as int;
    let path_end = first_stop(s, at, |c: char| ends_path(c));
    let path = if path_end == at {
        seq!['/']
    } else {
        s.subrange(at, path_end)
    };
    if path_end == n {
        (path, None, None)
    } else if s[path_end] == '#' {
        (path, None, Some(s.subrange(path_end + 1, n)))
    } else {
        let query_end = first_stop(s, path_end + 1, |c: char| ends_query(c));
        let query = Some(s.subrange(path_end + 1, query_end));
        if query_end == n {
            (path, query, None)
        } else {
            (path, query, Some(s.subrange(query_end + 1, n)))
        }
    }
}

/// What reading `s` as a URL gives.
pub open spec fn parse_url(s: Seq<char>) -> Result<UrlModel, UrlParseError> {
    match scheme_end(s, 0) {
        None => Err(UrlParseError::MissingScheme),
        Some(i) => if !is_scheme(s.take(i)) {
            Err(UrlParseError::InvalidScheme)
        } else {
            let authority_end = first_stop(s, i + 3, |c: char| ends_authority(c));
            if authority_end == i + 3 {
                Err(UrlParseError::EmptyHost)
            } else {
                let (path, query, fragment) = parse_rest(s, authority_end);
                Ok(
                    UrlModel {
                        scheme: lowered(s.take(i)),
                        authority: lowered(s.subrange(i + 3, authority_end)),
                        path,
                        query,
                        fragment,
                    },
                )
            }
        },
    }
}

/// `path` with one more segment.
pub open spec fn with_segment(path: Seq<char>, segment: Seq<char>) -> Seq<char> {
    if path.len() <= 1 {
        seq!['/'] + segment
    } else {
        path + seq!['/'] + segment
    }
}

impl UrlModel {
    /// What follows the path.
    pub open spec fn suffix(self) -> Seq<char> {
        let query = match self.query {
            Some(q) => seq!['?'] + q,
            None => Seq::empty(),
        };
        let fragment = match self.fragment {
            Some(f) => seq!['#'] + f,
            None => Seq::empty(),
        };
        query + fragment
    }

    /// The URL as text.
    pub open spec fn text(self) -> Seq<char> {
        self.scheme + "://"@ + self.authority + self.path + self.suffix()
    }

    /// The scheme and authority, with the path `/`.
    pub open spec fn origin(self) -> UrlModel {
        UrlModel { path: seq!['/'], query: None, fragment: None, ..self }
    }

    /// The URL with one more path segment.
    pub open spec fn join_segment(self, segment: Seq<char>) -> UrlModel {
        UrlModel { path: with_segment(self.path, segment), ..self }
    }

    /// The gateway on this relay through which `directory` is reached. Of the directory, it
    /// holds the scheme and the authority alone.
    pub open spec fn relay_to(self, directory: UrlModel) -> UrlModel {
        UrlModel {
            path: seq!['/'] + directory.origin().text(),
            query: None,
            fragment: None,
            ..self
        }
    }

    /// Whether this is a URL that its text is read back as.
    pub open spec fn well_formed(self) -> bool {
        &&& is_scheme(self.scheme)
        &&& lowered(self.scheme) == self.scheme
        &&& self.authority.len() > 0
        &&& lowered(self.authority) == self.authority
        &&& forall|i: int|
            0 <= i < self.authority.len() ==> !ends_authority(#[trigger] self.authority[i])
        &&& self.path.len() > 0 && self.path[0] == '/'
        &&& forall|i: int| 0 <= i < self.path.len() ==> !ends_path(#[trigger] self.path[i])
        &&& self.query matches Some(q) ==> forall|i: int|
            0 <= i < q.len() ==> !ends_query(#[trigger] q[i])
    }
}

/// Finds the first position from `from` on that holds one of the given characters.
fn find_any(v: &Vec<char>, from: usize, a: char, b: char, c: char) -> (r: usize)
    requires
        from <= v@.len(),
    ensures
        from <= r <= v@.len(),
        forall|i: int| from <= i < r ==> v@[i] != a && v@[i] != b && v@[i] != c,
        r < v@.len() ==> v@[r as int] == a || v@[r as int] == b || v@[r as int] == c,
{
    let mut i: usize = from;
    while i < v.len()
        invariant
            from <= i <= v@.len(),
            forall|j: int| from <= j < i ==> v@[j] != a && v@[j] != b && v@[j] != c,
        decreases v@.len() - i,
    {
        if v[i] == a || v[i] == b || v[i] == c {
            return i;
        }
        i += 1;
    }
    i
}

/// Where the first stop is.
pub proof fn lemma_first_stop(s: Seq<char>, from: int, stop: spec_fn(char) -> bool, r: int)
    requires
        0 <= from <= r <= s.len(),
        forall|i: int| from <= i < r ==> !stop(#[trigger] s[i]),
        r < s.len() ==> stop(s[r]),
    ensures
        first_stop(s, from, stop) == r,
    decreases r - from,
{
    if from < r {
        assert(!stop(s[from]));
        lemma_first_stop(s, from + 1, stop, r);
    }
}

/// Where `://` first stands.
pub proof fn lemma_scheme_end(s: Seq<char>, from: int, r: int)
    requires
        0 <= from <= r,
        forall|i: int| from <= i < r ==> !#[trigger] scheme_end_at(s, i),
        scheme_end_at(s, r),
    ensures
        scheme_end(s, from) == Some(r),
    decreases r - from,
{
    if from < r {
        assert(!scheme_end_at(s, from));
        lemma_scheme_end(s, from + 1, r);
    }
}

fn find_scheme_end(v: &Vec<char>) -> (r: Option<usize>)
    ensures
        match r {
            Some(i) => scheme_end(v@, 0) == Some(i as int) && scheme_end_at(v@, i as int),
            None => scheme_end(v@, 0) is None,
        },
{
    let mut i: usize = 0;
    while i < v.len()
        invariant
            i <= v@.len(),
            scheme_end(v@, 0) == scheme_end(v@, i as int),
        decreases v@.len() - i,
    {
        if v.len() - i >= 3 && v[i] == ':' && v[i + 1] == '/' && v[i + 2] == '/' {
            return Some(i);
        }
        i += 1;
    }
    None
}

fn check_scheme(v: &Vec<char>, end: usize) -> (r: bool)
    requires
        end <= v@.len(),
    ensures
        r == is_scheme(v@.take(end as int)),
{
    if end == 0 {
        return false;
    }
    let c = v[0];
    if !(('a' <= c && c <= 'z') || ('A' <= c && c <= 'Z')) {
        assert(!is_letter(v@.take(end as int)[0]));
        return false;
    }
    let mut i: usize = 0;
    while i < end
        invariant
            i <= end <= v@.len(),
            forall|j: int| 0 <= j < i ==> is_scheme_char(#[trigger] v@[j]),
        decreases end - i,
    {
        let c = v[i];
        if !(('a' <= c && c <= 'z') || ('A' <= c && c <= 'Z') || ('0' <= c && c <= '9') || c == '+'
            || c == '-' || c == '.') {
            assert(!is_scheme_char(v@.take(end as int)[i as int]));
            return false;
        }
        i += 1;
    }
    assert forall|j: int| 0 <= j < end implies is_scheme_char(#[trigger] v@.take(end as int)[j]) by {
        assert(is_scheme_char(v@[j]));
    }
    true
}

impl Url {
    /// Reads a URL.
    pub fn parse(s: &str) -> (r: Result<Url, UrlParseError>)
        ensures
            match parse_url(s@) {
                Ok(u) => r is Ok && r->Ok_0@ == u,
                Err(e) => r == Err::<Url, _>(e),
            },
    {
        let v = chars_of(s);
        let n: usize = v.len();
        let i: usize = match find_scheme_end(&v) {
            Some(i) => i,
            None => return Err(UrlParseError::MissingScheme),
        };
        if !check_scheme(&v, i) {
            return Err(UrlParseError::InvalidScheme);
        }
        let authority_end: usize = find_any(&v, i + 3, '/', '?', '#');
        proof {
            lemma_first_stop(v@, i + 3, |c: char| ends_authority(c), authority_end as int);
        }
        if authority_end == i + 3 {
            return Err(UrlParseError::EmptyHost);
        }
        let path_end: usize = find_any(&v, authority_end, '?', '#', '#');
        proof {
            lemma_first_stop(v@, authority_end as int, |c: char| ends_path(c), path_end as int);
        }
        let path = if path_end == authority_end {
            let mut p = String::new();
            p.push('/');
            assert(p@ =~= seq!['/']);
            p
        } else {
            string_of(&v, authority_end, path_end)
        };
        let scheme = string_of(&v, 0, i);
        assert(scheme@ =~= v@.take(i as int));
        let authority = string_of(&v, i + 3, authority_end);
        let mut query: Option<String> = None;
        let mut fragment: Option<String> = None;
        if path_end < n {
            if v[path_end] == '#' {
                fragment = Some(string_of(&v, path_end + 1, n));
            } else {
                let query_end: usize = find_any(&v, path_end + 1, '#', '#', '#');
                proof {
                    lemma_first_stop(
                        v@,
                        path_end + 1,
                        |c: char| ends_query(c),
                        query_end as int,
                    );
                }
                query = Some(string_of(&v, path_end + 1, query_end));
                if query_end < n {
                    fragment = Some(string_of(&v, query_end + 1, n));
                }
            }
        }
        Ok(Url { scheme: to_lower(&scheme), authority: to_lower(&authority), path, query, fragment })
    }

    /// The URL as text.
    pub fn as_string(&self) -> (r: String)
        ensures
            r@ == self@.text(),
    {
        let mut s = concat(&self.scheme, "://");
        s.append(&self.authority);
        s.append(&self.path);
        let ghost before = s@;
        if let Some(q) = &self.query {
            s.push('?');
            s.append(q);
        }
        if let Some(f) = &self.fragment {
            s.push('#');
            s.append(f);
        }
        assert(s@ =~= before + self@.suffix());
        s
    }

    /// The scheme and authority, with the path `/`.
    pub fn payjoin_directory_origin(&self) -> (r: Url)
        ensures
            r@ == self@.origin(),
    {
        let mut path = String::new();
        path.push('/');
        assert(path@ =~= seq!['/']);
        Url {
            scheme: self.scheme.clone(),
            authority: self.authority.clone(),
            path,
            query: None,
            fragment: None,
        }
    }

    /// The URL with one more path segment.
    pub fn push_segment(&self, segment: &str) -> (r: Url)
        ensures
            r@ == self@.join_segment(segment@),
    {
        let mut path = String::new();
        if self.path.unicode_len() > 1 {
            path.append(&self.path);
        }
        path.push('/');
        path.append(segment);
        assert(path@ =~= with_segment(self.path@, segment@));
        Url {
            scheme: self.scheme.clone(),
            authority: self.authority.clone(),
            path,
            query: clone_optional(&self.query),
            fragment: clone_optional(&self.fragment),
        }
    }

    /// The gateway on this relay through which `directory` is reached.
    pub fn relay_to(&self, directory: &Url) -> (r: Url)
        ensures
            r@ == self@.relay_to(directory@),
    {
        let mut path = String::new();
        path.push('/');
        path.append(&directory.payjoin_directory_origin().as_string());
        assert(path@ =~= seq!['/'] + directory@.origin().text());
        Url {
            scheme: self.scheme.clone(),
            authority: self.authority.clone(),
            path,
            query: None,
            fragment: None,
        }
    }

    /// Whether two URLs say the same.
    pub fn same_as(&self, other: &Url) -> (r: bool)
        ensures
            r == (self@ == other@),
    {
        self.scheme == other.scheme && self.authority == other.authority && self.path == other.path
            && same_optional(&self.query, &other.query) && same_optional(
            &self.fragment,
            &other.fragment,
        )
    }
}

fn same_optional(a: &Option<String>, b: &Option<String>) -> (r: bool)
    ensures
        r == (optional_text(*a) == optional_text(*b)),
{
    match (a, b) {
        (Some(x), Some(y)) => *x == *y,
        (None, None) => true,
        _ => false,
    }
}

/// Reading a scheme, `://`, an authority, a path and what follows gives these parts.
pub proof fn lemma_parse_of_parts(scheme: Seq<char>, authority: Seq<char>, u: UrlModel)
    requires
        is_scheme(scheme),
        lowered(scheme) == u.scheme,
        lowered(authority) == u.authority,
        authority.len() > 0,
        forall|i: int| 0 <= i < authority.len() ==> !ends_authority(#[trigger] authority[i]),
        u.path.len() > 0,
        u.path[0] == '/',
        forall|i: int| 0 <= i < u.path.len() ==> !ends_path(#[trigger] u.path[i]),
        u.query matches Some(q) ==> forall|i: int|
            0 <= i < q.len() ==> !ends_query(#[trigger] q[i]),
    ensures
        parse_url(scheme + "://"@ + authority + u.path + u.suffix()) == Ok::<_, UrlParseError>(u),
{
    reveal_strlit("://");
    let s = scheme + "://"@ + authority + u.path + u.suffix();
    let n = s.len() as int;
    let i = scheme.len() as int;
    let authority_end = i + 3 + authority.len();
    let path_end = authority_end + u.path.len();
    assert forall|j: int| 0 <= j < i implies !#[trigger] scheme_end_at(s, j) by {
        assert(s[j] == scheme[j]);
        assert(is_scheme_char(scheme[j]));
    }
    assert(scheme_end_at(s, i));
    lemma_scheme_end(s, 0, i);
    assert(s.take(i) =~= scheme);
    assert forall|j: int| i + 3 <= j < authority_end implies !ends_authority(#[trigger] s[j]) by {
        assert(s[j] == authority[j - i - 3]);
    }
    assert(s[authority_end] == u.path[0]);
    lemma_first_stop(s, i + 3, |c: char| ends_authority(c), authority_end);
    assert(s.subrange(i + 3, authority_end) =~= authority);
    assert forall|j: int| authority_end <= j < path_end implies !ends_path(#[trigger] s[j]) by {
        assert(s[j] == u.path[j - authority_end]);
    }
    assert(path_end < n ==> s[path_end] == u.suffix()[0]);
    lemma_first_stop(s, authority_end, |c: char| ends_path(c), path_end);
    assert(s.subrange(authority_end, path_end) =~= u.path);
    match u.query {
        None => {
            match u.fragment {
                None => {},
                Some(f) => {
                    assert(s[path_end] == '#');
                    assert(s.subrange(path_end + 1, n) =~= f);
                },
            }
        },
        Some(q) => {
            let query_end = path_end + 1 + q.len();
            assert(s[path_end] == '?');
            assert forall|j: int| path_end + 1 <= j < query_end implies !ends_query(
                #[trigger] s[j],
            ) by {
                assert(s[j] == q[j - path_end - 1]);
            }
            assert(query_end < n ==> s[query_end] == '#');
            lemma_first_stop(s, path_end + 1, |c: char| ends_query(c), query_end);
            assert(s.subrange(path_end + 1, query_end) =~= q);
            match u.fragment {
                None => {},
                Some(f) => {
                    assert(s.subrange(query_end + 1, n) =~= f);
                },
            }
        },
    }
}

/// The text of a URL is read back as that URL.
pub proof fn law_url_text_round_trips(u: UrlModel)
    requires
        u.well_formed(),
    ensures
        parse_url(u.text()) == Ok::<_, UrlParseError>(u),
{
    lemma_parse_of_parts(u.scheme, u.authority, u);
}

/// What is read is well formed.
pub proof fn law_parsed_url_is_well_formed(s: Seq<char>)
    requires
        parse_url(s) is Ok,
    ensures
        parse_url(s)->Ok_0.well_formed(),
{
    let u = parse_url(s)->Ok_0;
    let n = s.len() as int;
    let i = scheme_end(s, 0)->0;
    lemma_scheme_end_found(s, 0);
    let authority_end = first_stop(s, i + 3, |c: char| ends_authority(c));
    lemma_first_stop_found(s, i + 3, |c: char| ends_authority(c));
    let path_end = first_stop(s, authority_end, |c: char| ends_path(c));
    lemma_first_stop_found(s, authority_end, |c: char| ends_path(c));
    assert forall|j: int| 0 <= j < u.scheme.len() implies is_scheme_char(
        #[trigger] u.scheme[j],
    ) by {
        assert(is_scheme_char(s.take(i)[j]));
    }
    assert(is_letter(s.take(i)[0]));
    lemma_lowered_twice(s.take(i));
    let a = s.subrange(i + 3, authority_end);
    lemma_lowered_twice(a);
    assert forall|j: int| 0 <= j < u.authority.len() implies !ends_authority(
        #[trigger] u.authority[j],
    ) by {
        assert(a[j] == s[i + 3 + j]);
        assert(u.authority[j] == lower_char(a[j]));
    }
    if path_end > authority_end {
        assert(u.path[0] == s[authority_end]);
        assert forall|j: int| 0 <= j < u.path.len() implies !ends_path(#[trigger] u.path[j]) by {
            assert(u.path[j] == s[authority_end + j]);
        }
    }
    if path_end < n && s[path_end] != '#' {
        let query_end = first_stop(s, path_end + 1, |c: char| ends_query(c));
        lemma_first_stop_found(s, path_end + 1, |c: char| ends_query(c));
        let q = u.query->0;
        assert forall|j: int| 0 <= j < q.len() implies !ends_query(#[trigger] q[j]) by {
            assert(q[j] == s[path_end + 1 + j]);
        }
    }
}

/// What holds of the first stop.
proof fn lemma_first_stop_found(s: Seq<char>, from: int, stop: spec_fn(char) -> bool)
    requires
        0 <= from <= s.len(),
    ensures
        from <= first_stop(s, from, stop) <= s.len(),
        forall|i: int| from <= i < first_stop(s, from, stop) ==> !stop(#[trigger] s[i]),
        first_stop(s, from, stop) < s.len() ==> stop(s[first_stop(s, from, stop)]),
    decreases s.len() - from,
{
    if from < s.len() && !stop(s[from]) {
        lemma_first_stop_found(s, from + 1, stop);
    }
}

/// What holds where `://` is found.
proof fn lemma_scheme_end_found(s: Seq<char>, from: int)
    requires
        0 <= from,
        scheme_end(s, from) is Some,
    ensures
        from <= scheme_end(s, from)->0,
        scheme_end_at(s, scheme_end(s, from)->0),
        forall|i: int| from <= i < scheme_end(s, from)->0 ==> !#[trigger] scheme_end_at(s, i),
    decreases s.len() - from,
{
    if !scheme_end_at(s, from) {
        lemma_scheme_end_found(s, from + 1);
    }
}

/// Whatever follows the text of a URL, the whole is read as a URL.
pub proof fn law_longer_text_is_read(s: Seq<char>, t: Seq<char>)
    requires
        parse_url(s) is Ok,
    ensures
        parse_url(s + t) is Ok,
{
    let whole = s + t;
    let i = scheme_end(s, 0)->0;
    lemma_scheme_end_found(s, 0);
    assert forall|j: int| 0 <= j < i implies !#[trigger] scheme_end_at(whole, j) by {
        assert(!scheme_end_at(s, j));
    }
    lemma_scheme_end(whole, 0, i);
    assert(whole.take(i) =~= s.take(i));
    lemma_first_stop_found(s, i + 3, |c: char| ends_authority(c));
    assert(i + 3 < s.len());
    assert(!ends_authority(s[i + 3]));
    lemma_first_stop_found(whole, i + 3, |c: char| ends_authority(c));
    assert(whole[i + 3] == s[i + 3]);
}

/// A text in lower case is not changed by lowering it.
pub proof fn lemma_lowered_twice(s: Seq<char>)
    ensures
        lowered(lowered(s)) == lowered(s),
{
    assert forall|i: int| 0 <= i < s.len() implies lowered(lowered(s))[i] == lowered(s)[i] by {
        assert(lower_char(lower_char(s[i])) == lower_char(s[i]));
    }
    assert(lowered(lowered(s)) =~= lowered(s));
}

/// The origin of a URL has its scheme and authority, and nothing else of it.
pub proof fn law_origin_keeps_the_authority(u: UrlModel, other: UrlModel)
    ensures
        u.origin().scheme == u.scheme,
        u.origin().authority == u.authority,
        u.origin().path == seq!['/'],
        u.origin().query is None,
        u.origin().fragment is None,
        u.origin() == other.origin() <==> u.scheme == other.scheme && u.authority
            == other.authority,
{
}

/// One more segment is put behind the path, after a slash; nothing else changes. The path `/` has no
/// segment of its own.
pub proof fn law_segment_is_put_behind_the_path(u: UrlModel, segment: Seq<char>)
    requires
        u.well_formed(),
    ensures
        u.join_segment(segment).scheme == u.scheme,
        u.join_segment(segment).authority == u.authority,
        u.join_segment(segment).query == u.query,
        u.join_segment(segment).fragment == u.fragment,
        u.join_segment(segment).path == (if u.path == seq!['/'] {
            Seq::<char>::empty()
        } else {
            u.path
        }) + seq!['/'] + segment,
{
    if u.path.len() == 1 {
        assert(u.path =~= seq!['/']);
    }
    assert(Seq::<char>::empty() + seq!['/'] + segment =~= seq!['/'] + segment);
}

/// What reading a URL gives is read off its text: the scheme before the first `://`, the authority
/// after it, both in lower case, and then, letter by letter, the path, the query and the fragment. An
/// empty path is read as `/`.
pub proof fn law_url_is_read_off_its_text(s: Seq<char>)
    ensures
        match parse_url(s) {
            Ok(u) => exists|i: int| #[trigger]
                scheme_end_at(s, i) && {
                    let authority_end = i + 3 + u.authority.len();
                    let rest = (match u.query {
                        Some(q) => seq!['?'] + q,
                        None => Seq::empty(),
                    }) + (match u.fragment {
                        Some(f) => seq!['#'] + f,
                        None => Seq::empty(),
                    });
                    &&& forall|j: int| 0 <= j < i ==> !#[trigger] scheme_end_at(s, j)
                    &&& authority_end <= s.len()
                    &&& u.scheme == lowered(s.take(i))
                    &&& u.authority == lowered(s.subrange(i + 3, authority_end))
                    &&& s.skip(authority_end) == u.path + rest || (s.skip(authority_end) == rest
                        && u.path == seq!['/'])
                },
            Err(UrlParseError::MissingScheme) => forall|j: int| !#[trigger] scheme_end_at(s, j),
            Err(UrlParseError::InvalidScheme) => exists|i: int| #[trigger]
                scheme_end_at(s, i) && !is_scheme(s.take(i)) && forall|j: int|
                    0 <= j < i ==> !#[trigger] scheme_end_at(s, j),
            Err(UrlParseError::EmptyHost) => exists|i: int| #[trigger]
                scheme_end_at(s, i) && is_scheme(s.take(i)) && (forall|j: int|
                    0 <= j < i ==> !#[trigger] scheme_end_at(s, j)) && (i + 3 == s.len() || s[i + 3]
                    == '/' || s[i + 3] == '?' || s[i + 3] == '#'),
        },
{
    match scheme_end(s, 0) {
        None => {
            lemma_no_scheme_end(s, 0);
        },
        Some(i) => {
            lemma_scheme_end_found(s, 0);
            assert(scheme_end_at(s, i));
            let a = first_stop(s, i + 3, |c: char| ends_authority(c));
            lemma_first_stop_found(s, i + 3, |c: char| ends_authority(c));
            if parse_url(s) is Ok {
                let u = parse_url(s)->Ok_0;
                let n = s.len() as int;
                let path_end = first_stop(s, a, |c: char| ends_path(c));
                lemma_first_stop_found(s, a, |c: char| ends_path(c));
                let rest = u.suffix();
                assert(i + 3 + u.authority.len() == a);
                if path_end < n {
                    let query_end = first_stop(s, path_end + 1, |c: char| ends_query(c));
                    lemma_first_stop_found(s, path_end + 1, |c: char| ends_query(c));
                    if s[path_end] == '#' {
                        assert(rest =~= s.skip(path_end));
                    } else if query_end < n {
                        assert(rest =~= s.skip(path_end));
                    } else {
                        assert(rest =~= s.skip(path_end));
                    }
                } else {
                    assert(rest =~= s.skip(path_end));
                }
                if path_end > a {
                    assert(s.skip(a) =~= u.path + rest);
                } else {
                    assert(s.skip(a) =~= rest);
                }
            }
        },
    }
}

/// Where none is found, there is none.
proof fn lemma_no_scheme_end(s: Seq<char>, from: int)
    requires
        0 <= from,
        scheme_end(s, from) is None,
    ensures
        forall|j: int| from <= j ==> !#[trigger] scheme_end_at(s, j),
    decreases s.len() - from,
{
    if from < s.len() {
        lemma_no_scheme_end(s, from + 1);
    }
}

/// A scheme is a letter, then letters, digits, `+`, `-` or `.`.
pub proof fn law_scheme_characters(s: Seq<char>)
    ensures
        is_scheme(s) <==> {
            &&& s.len() > 0
            &&& ('a' <= s[0] <= 'z' || 'A' <= s[0] <= 'Z')
            &&& forall|i: int|
                0 <= i < s.len() ==> 'a' <= #[trigger] s[i] <= 'z' || 'A' <= s[i] <= 'Z' || '0'
                    <= s[i] <= '9' || s[i] == '+' || s[i] == '-' || s[i] == '.'
        },
{
}

/// What is said of a URL is what it holds, part by part.
pub proof fn law_url_is_what_is_said(u: Url)
    ensures
        u@.scheme == u.scheme@,
        u@.authority == u.authority@,
        u@.path == u.path@,
        u@.query == (match u.query {
            Some(q) => Some(q@),
            None => None,
        }),
        u@.fragment == (match u.fragment {
            Some(f) => Some(f@),
            None => None,
        }),
{
}

} // verus!
