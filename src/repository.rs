use vstd::prelude::*;
use vstd::string::StringExecFns;

use crate::package::PackageRecord;
use crate::parse::{rpartition, rpartition_spec};
use crate::text::str_eq;

verus! {

#[verifier::external_type_specification]
#[verifier::external_body]
pub struct ExUrl(reqwest::Url);

/// The path of the URL that a string denotes, or `None` where the string is not a valid
/// absolute URL.
pub uninterp spec fn url_path_of(input: Seq<char>) -> Option<Seq<char>>;

/// Relies on the `FromStr` impl of `reqwest::Url` (the `url` crate's parser), and on
/// `Url::path` for the path of the parsed URL: both depend on the input string alone.
#[verifier::external_body]
fn parse_url(input: &str) -> (r: Option<(reqwest::Url, String)>)
    ensures
        match r {
            Some((_, path)) => url_path_of(input@) == Some(path@),
            None => url_path_of(input@) is None,
        },
{
    match input.parse::<reqwest::Url>() {
        Ok(url) => {
            let path = url.path().to_string();
            Some((url, path))
        },
        Err(_) => None,
    }
}

/// The text of the URL that `url` denotes, after its path is replaced by `path`.
pub uninterp spec fn url_with_path_of(url: Seq<char>, path: Seq<char>) -> Seq<char>;

/// Relies on the `FromStr` impl of `reqwest::Url` (the `url` crate's parser), on
/// `Url::set_path` and on `Url::as_str`: the text of a URL with its path replaced, which
/// depends on the two strings alone. A valid URL parses again.
#[verifier::external_body]
fn url_with_path(url: &str, path: &str) -> (r: Option<String>)
    ensures
        url_path_of(url@) is Some ==> r is Some,
        r matches Some(t) ==> t@ == url_with_path_of(url@, path@),
{
    match url.parse::<reqwest::Url>() {
        Ok(mut out) => {
            out.set_path(path);
            Some(out.as_str().to_string())
        },
        Err(_) => None,
    }
}

/// An error in the list of repositories.
#[derive(Debug, Clone, PartialEq, Eq)]
pub enum ConfigError {
    /// The string is not a valid URL.
    InvalidUrl(String),
    /// No repository name can be taken from the path of the URL.
    EmptyName(String),
    /// Two URLs give repositories of the same name.
    DuplicateName(String),
}

/// The name of a repository: the last segment of the path of its database URL.
pub open spec fn repository_name_spec(path: Seq<char>) -> Seq<char> {
    match rpartition_spec(path, '/') {
        Some((_, name)) => name,
        None => path,
    }
}

/// The repository name that a URL gives, if it is a valid URL.
pub open spec fn url_name(url: Seq<char>) -> Option<Seq<char>> {
    match url_path_of(url) {
        Some(path) => Some(repository_name_spec(path)),
        None => None,
    }
}

/// The URL is valid and gives a non-empty repository name.
pub open spec fn url_ok(url: Seq<char>) -> bool {
    url_name(url) is Some && url_name(url)->0.len() > 0
}

/// The last segment of a URL path.
pub fn repository_name(path: &str) -> (r: &str)
    ensures
        r@ == repository_name_spec(path@),
{
    match rpartition(path, '/') {
        Some((_, name)) => name,
        None => path,
    }
}

/// Metadata about a repository.
pub struct Repository {
    pub name: String,
    pub db_url: reqwest::Url,
    pub db_url_text: String,
    pub db_path: String,
}

impl Repository {
    /// The database URL is valid, and `db_path` is its path.
    pub open spec fn wf(&self) -> bool {
        url_path_of(self.db_url_text@) == Some(self.db_path@)
    }

    /// Read a repository from the URL of its database archive.
    pub fn from_str(input: &str) -> (r: Result<Repository, ConfigError>)
        ensures
            match r {
                Ok(repo) => repo.db_url_text@ == input@ && repo.wf() && repo.name@
                    == repository_name_spec(repo.db_path@) && repo.name@.len() > 0,
                Err(ConfigError::InvalidUrl(s)) => s@ == input@ && url_path_of(input@) is None,
                Err(ConfigError::EmptyName(s)) => s@ == input@ && url_name(input@) is Some
                    && url_name(input@)->0.len() == 0,
                Err(ConfigError::DuplicateName(_)) => false,
            },
    {
        let (db_url, db_path) = match parse_url(input) {
            Some(x) => x,
            None => return Err(ConfigError::InvalidUrl(input.to_owned())),
        };
        let name = repository_name(db_path.as_str());
        if name.unicode_len() == 0 {
            return Err(ConfigError::EmptyName(input.to_owned()));
        }
        Ok(Repository { name: name.to_owned(), db_url, db_url_text: input.to_owned(), db_path })
    }

    /// Parse a list of repository URLs.
    ///
    /// If different URLs give repositories with the same name, an error is returned.
    pub fn parse_urls(urls: &Vec<String>) -> (r: Result<Vec<Repository>, ConfigError>)
        ensures
            r is Ok <==> (forall|i: int| 0 <= i < urls@.len() ==> url_ok(#[trigger] urls@[i]@))
                && (forall|i: int, k: int|
                0 <= i < k < urls@.len() ==> url_name(#[trigger] urls@[i]@) != url_name(
                    #[trigger] urls@[k]@,
                )),
            match r {
                Ok(repos) => repos@.len() == urls@.len() && forall|i: int|
                    0 <= i < repos@.len() ==> (#[trigger] repos@[i]).db_url_text@ == urls@[i]@
                        && repos@[i].wf() && repos@[i].name@ == repository_name_spec(
                        repos@[i].db_path@,
                    ),
                Err(ConfigError::InvalidUrl(s)) => exists|i: int|
                    0 <= i < urls@.len() && #[trigger] urls@[i]@ == s@ && url_path_of(s@) is None,
                Err(ConfigError::EmptyName(s)) => exists|i: int|
                    0 <= i < urls@.len() && #[trigger] urls@[i]@ == s@ && url_name(s@) is Some
                        && url_name(s@)->0.len() == 0,
                Err(ConfigError::DuplicateName(n)) => exists|i: int, k: int|
                    0 <= i < k < urls@.len() && url_name(#[trigger] urls@[i]@) == Some(n@)
                        && url_name(#[trigger] urls@[k]@) == Some(n@),
            },
    {
        let mut repositories: Vec<Repository> = Vec::new();
        let mut i: usize = 0;
        while i < urls.len()
            invariant
                i <= urls@.len(),
                repositories@.len() == i,
                forall|m: int| 0 <= m < i ==> url_ok(#[trigger] urls@[m]@),
                forall|m: int|
                    0 <= m < i ==> (#[trigger] repositories@[m]).db_url_text@ == urls@[m]@
                        && repositories@[m].wf() && repositories@[m].name@ == repository_name_spec(
                        repositories@[m].db_path@,
                    ),
                forall|m: int, k: int|
                    0 <= m < k < i ==> url_name(#[trigger] urls@[m]@) != url_name(
                        #[trigger] urls@[k]@,
                    ),
            decreases urls@.len() - i,
        {
            let repository = match Repository::from_str(urls[i].as_str()) {
                Ok(x) => x,
                Err(e) => {
                    assert(!url_ok(urls@[i as int]@));
                    return Err(e);
                },
            };
            let mut m: usize = 0;
            while m < repositories.len()
                invariant
                    i < urls@.len(),
                    repositories@.len() == i,
                    m <= i,
                    url_name(urls@[i as int]@) == Some(repository.name@),
                    forall|q: int|
                        0 <= q < i ==> (#[trigger] repositories@[q]).db_url_text@ == urls@[q]@
                            && repositories@[q].wf() && repositories@[q].name@
                            == repository_name_spec(repositories@[q].db_path@),
                    forall|q: int| 0 <= q < m ==> url_name(#[trigger] urls@[q]@) != url_name(urls@[i as int]@),
                decreases i - m,
            {
                if str_eq(repositories[m].name.as_str(), repository.name.as_str()) {
                    assert(url_name(urls@[m as int]@) == url_name(urls@[i as int]@));
                    return Err(ConfigError::DuplicateName(repository.name.clone()));
                }
                m = m + 1;
            }
            repositories.push(repository);
            i = i + 1;
        }
        Ok(repositories)
    }
}

/// The directory part of a path: what precedes its last `/`, or nothing.
pub open spec fn parent_spec(path: Seq<char>) -> Seq<char> {
    match rpartition_spec(path, '/') {
        Some((parent, _)) => parent,
        None => Seq::empty(),
    }
}

/// The path of a package file: the file name in the directory of the database archive.
pub fn package_path(db_path: &str, filename: &str) -> (r: String)
    ensures
        r@ == parent_spec(db_path@) + seq!['/'] + filename@,
{
    let parent = match rpartition(db_path, '/') {
        Some((parent, _)) => parent,
        None => "",
    };
    proof {
        reveal_strlit("");
        reveal_strlit("/");
    }
    let mut out = String::from_str(parent);
    out.append("/");
    out.append(filename);
    out
}

/// Get the URL of a package file: the URL of the database archive, with the file name of the
/// package in place of the archive's.
pub fn package_url(repository: &Repository, package: &PackageRecord) -> (r: String)
    requires
        repository.wf(),
    ensures
        r@ == url_with_path_of(
            repository.db_url_text@,
            parent_spec(repository.db_path@) + seq!['/'] + package.filename@,
        ),
{
    let path = package_path(repository.db_path.as_str(), package.filename.as_str());
    match url_with_path(repository.db_url_text.as_str(), path.as_str()) {
        Some(url) => url,
        None => {
            assert(false);
            String::new()
        },
    }
}

} // verus!
