//! A repository on this machine: its identity, where it is, and the remotes
//! it knows.

use vstd::prelude::*;
use crate::error::OxenError;
use crate::paths::{after_last, file_name, file_name_of, find_after_last, lemma_after_last_bound};
use vstd::string::StrSliceExecFns;

verus! {

/// A named remote endpoint.
#[derive(Debug, Clone)]
pub struct Remote {
    pub name: String,
    pub value: String,
}

impl View for Remote {
    type V = (Seq<char>, Seq<char>);

    open spec fn view(&self) -> (Seq<char>, Seq<char>) {
        (self.name@, self.value@)
    }
}

/// The request to create a repository: its name.
#[derive(Debug, Clone)]
pub struct RepositoryNew {
    pub name: String,
}

/// A repository on this machine. `remote_name` says which of the remotes is
/// the current one.
#[derive(Debug, Clone)]
pub struct LocalRepository {
    pub id: String,
    pub name: String,
    pub path: String,
    pub remote_name: Option<String>,
    pub remotes: Vec<Remote>,
}

/// The views of a list of remotes.
pub open spec fn remote_views(rs: Seq<Remote>) -> Seq<(Seq<char>, Seq<char>)> {
    rs.map_values(|r: Remote| r@)
}

/// The names of a list of remotes.
pub open spec fn remote_names(rs: Seq<Remote>) -> Seq<Seq<char>> {
    rs.map_values(|r: Remote| r.name@)
}

/// The path of a URL, as `http::Uri` parses it; `None` when it does not
/// parse.
pub uninterp spec fn uri_path_of(url: Seq<char>) -> Option<Seq<char>>;

/// Relies on `<http::Uri as FromStr>::from_str` and `http::Uri::path`: the
/// path component of a URL that parses.
#[verifier::external_body]
fn parse_uri_path(url: &str) -> (r: Option<String>)
    ensures
        match r {
            Some(p) => uri_path_of(url@) == Some(p@),
            None => uri_path_of(url@) is None,
        },
{
    match url.parse::<http::Uri>() {
        Ok(uri) => Some(uri.path().to_string()),
        Err(_) => None,
    }
}

/// Relies on `uuid::Uuid::new_v4` and its hyphenated text form: a fresh
/// random identifier of 36 characters.
#[verifier::external_body]
fn new_uuid() -> (r: String)
    ensures
        r@.len() == 36,
{
    uuid::Uuid::new_v4().to_string()
}

impl LocalRepository {
    /// A new repository at `path`, with a fresh random id, named after the
    /// last component of the path, without remotes.
    pub fn new(path: &str) -> (r: LocalRepository)
        ensures
            r.id@.len() == 36,
            r.name@ == file_name_of(path@),
            r.path@ == path@,
            r.remote_name is None,
            r.remotes@.len() == 0,
    {
        LocalRepository {
            id: new_uuid(),
            name: file_name(path),
            path: path.to_owned(),
            remote_name: None,
            remotes: Vec::new(),
        }
    }

    /// Whether a remote of this name is known.
    pub fn has_remote(&self, name: &str) -> (r: bool)
        ensures
            r == remote_names(self.remotes@).contains(name@),
    {
        let n = name.to_owned();
        let mut i: usize = 0;
        while i < self.remotes.len()
            invariant
                n@ == name@,
                i <= self.remotes@.len(),
                forall|j: int| 0 <= j < i ==> remote_names(self.remotes@)[j] != name@,
            decreases self.remotes@.len() - i,
        {
            if self.remotes[i].name == n {
                assert(remote_names(self.remotes@)[i as int] == name@);
                return true;
            }
            i = i + 1;
        }
        false
    }

    /// Makes `name` the current remote and sets its value: every remote of
    /// that name gets the value, or, when there is none, a remote is added.
    pub fn set_remote(&mut self, name: &str, value: &str)
        ensures
            final(self).remote_name matches Some(n) && n@ == name@,
            remote_views(final(self).remotes@) == if remote_names(old(self).remotes@).contains(name@) {
                remote_views(old(self).remotes@).map_values(|r: (Seq<char>, Seq<char>)|
                    if r.0 == name@ { (name@, value@) } else { r })
            } else {
                remote_views(old(self).remotes@).push((name@, value@))
            },
            final(self).id == old(self).id,
            final(self).name == old(self).name,
            final(self).path == old(self).path,
    {
        self.remote_name = Some(name.to_owned());
        let ghost before = remote_views(self.remotes@);
        if self.has_remote(name) {
            let n = name.to_owned();
            let mut i: usize = 0;
            while i < self.remotes.len()
                invariant
                    n@ == name@,
                    self.id == old(self).id,
                    self.name == old(self).name,
                    self.path == old(self).path,
                    self.remote_name matches Some(x) && x@ == name@,
                    i <= self.remotes@.len(),
                    self.remotes@.len() == before.len(),
                    forall|j: int| 0 <= j < i ==> (#[trigger] self.remotes@[j])@
                        == if before[j].0 == name@ { (name@, value@) } else { before[j] },
                    forall|j: int| i <= j < self.remotes@.len() ==> (#[trigger] self.remotes@[j])@ == before[j],
                decreases self.remotes@.len() - i,
            {
                if self.remotes[i].name == n {
                    self.remotes.set(i, Remote { name: name.to_owned(), value: value.to_owned() });
                }
                i = i + 1;
            }
            assert(remote_views(self.remotes@) =~= before.map_values(|r: (Seq<char>, Seq<char>)|
                if r.0 == name@ { (name@, value@) } else { r }));
        } else {
            self.remotes.push(Remote { name: name.to_owned(), value: value.to_owned() });
            assert(remote_views(self.remotes@) =~= before.push((name@, value@)));
        }
    }

    /// The current remote: the first remote whose name is the current
    /// remote name, if any.
    pub fn remote(&self) -> (r: Option<Remote>)
        ensures
            match self.remote_name {
                None => r is None,
                Some(n) => if remote_names(self.remotes@).contains(n@) {
                    r matches Some(x) && x@ == self.remotes@[remote_names(self.remotes@).index_of_first(n@)->Some_0]@
                } else {
                    r is None
                },
            },
    {
        match &self.remote_name {
            None => None,
            Some(n) => {
                let ghost names = remote_names(self.remotes@);
                let mut i: usize = 0;
                while i < self.remotes.len()
                    invariant
                        self.remote_name == Some(*n),
                        names == remote_names(self.remotes@),
                        i <= self.remotes@.len(),
                        forall|j: int| 0 <= j < i ==> names[j] != n@,
                    decreases self.remotes@.len() - i,
                {
                    if self.remotes[i].name == *n {
                        proof {
                            assert(names[i as int] == n@);
                            names.index_of_first_ensures(n@);
                        }
                        return Some(Remote { name: self.remotes[i].name.clone(), value: self.remotes[i].value.clone() });
                    }
                    i = i + 1;
                }
                None
            },
        }
    }

    /// The directory name that a clone of the repository at `url` gets: the
    /// last segment of the URL's path. Fails with `InvalidUrl` when the URL
    /// does not parse.
    pub fn dirname_from_url(url: &str) -> (r: Result<String, OxenError>)
        ensures
            match uri_path_of(url@) {
                Some(p) => r is Ok && r->Ok_0@ == p.subrange(after_last(p, '/') as int, p.len() as int),
                None => r == Err::<String, OxenError>(OxenError::InvalidUrl),
            },
    {
        match parse_uri_path(url) {
            Some(p) => {
                let n = p.as_str().unicode_len();
                let start = find_after_last(p.as_str(), n, '/');
                proof {
                    assert(p@.subrange(0, n as int) =~= p@);
                    lemma_after_last_bound(p@, '/');
                }
                Ok(p.as_str().substring_char(start, n).to_owned())
            },
            None => Err(OxenError::InvalidUrl),
        }
    }
}

} // verus!
