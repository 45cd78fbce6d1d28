//! License files of a package's repository on github.com: the API address to list the
//! repository's files, and which of the listed files are kept.
use crate::files::{is_license_file_name};
use crate::license::{is_license, is_license_name, LicensePath};
use crate::text::{owned, push_char};
use vstd::prelude::*;
use vstd::string::StringExecFns;

verus! {

broadcast use vstd::seq_lib::group_seq_properties;

/// The parts of a URL that the library reads: its host, if it has one, and the
/// `/`-separated segments of its path, where it is not a cannot-be-a-base URL.
pub struct UrlParts {
    pub host: Option<String>,
    pub path_segments: Option<Vec<String>>,
}

/// The parts of a URL as plain values.
pub type UrlPartsView = (Option<Seq<char>>, Option<Seq<Seq<char>>>);

impl View for UrlParts {
    type V = UrlPartsView;

    open spec fn view(&self) -> UrlPartsView {
        (
            match self.host { Some(h) => Some(h@), None => None },
            match self.path_segments { Some(s) => Some(s@.map_values(|x: String| x@)), None => None },
        )
    }
}

/// What `url::Url::parse` makes of a text, read through `host_str` and `path_segments`:
/// `None` where the text is no absolute URL.
pub uninterp spec fn url_parts(text: Seq<char>) -> Option<UrlPartsView>;

/// `url::Url::parse`, followed by `Url::host_str` and `Url::path_segments` on the URL it
/// gives. Claimed: the result is named `url_parts` of the text; `path_segments`, where
/// present, holds at least one segment (as its documentation says). How a text is parsed
/// is not stated.
#[verifier::external_body]
fn parse_url(text: &str) -> (res: Option<UrlParts>)
    ensures
        match res {
            Some(parts) => url_parts(text@) == Some(parts@),
            None => url_parts(text@) is None,
        },
        res matches Some(parts) ==> (parts.path_segments matches Some(s) ==> s@.len() >= 1),
{
    let url = url::Url::parse(text).ok()?;
    Some(UrlParts {
        host: url.host_str().map(|h| h.to_string()),
        path_segments: url.path_segments().map(|s| s.map(|x| x.to_string()).collect()),
    })
}

/// Why no API address could be made of a repository URL.
#[derive(Debug, PartialEq, Eq)]
pub enum RepositoryUrlError {
    /// The text is no absolute URL.
    InvalidUrl,
    /// The URL's host is not `github.com` (the repository URL is kept).
    NotGithub(String),
    /// The URL has no path (cannot-be-a-base).
    NoPathSegments,
    /// The path has no first segment.
    MissingOwner,
    /// The path has no second segment.
    MissingRepo,
}

/// Why no API address could be made of a repository URL, as plain values.
pub enum RepositoryUrlErrorView {
    InvalidUrl,
    NotGithub(Seq<char>),
    NoPathSegments,
    MissingOwner,
    MissingRepo,
}

impl View for RepositoryUrlError {
    type V = RepositoryUrlErrorView;

    open spec fn view(&self) -> RepositoryUrlErrorView {
        match self {
            RepositoryUrlError::InvalidUrl => RepositoryUrlErrorView::InvalidUrl,
            RepositoryUrlError::NotGithub(url) => RepositoryUrlErrorView::NotGithub(url@),
            RepositoryUrlError::NoPathSegments => RepositoryUrlErrorView::NoPathSegments,
            RepositoryUrlError::MissingOwner => RepositoryUrlErrorView::MissingOwner,
            RepositoryUrlError::MissingRepo => RepositoryUrlErrorView::MissingRepo,
        }
    }
}

/// The message of each error.
pub open spec fn repository_url_error_message(e: RepositoryUrlErrorView) -> Seq<char> {
    match e {
        RepositoryUrlErrorView::InvalidUrl => "invalid URL"@,
        RepositoryUrlErrorView::NotGithub(url) => "not a github.com URL: "@ + url,
        RepositoryUrlErrorView::NoPathSegments => "no path segments in URL"@,
        RepositoryUrlErrorView::MissingOwner => "missing owner"@,
        RepositoryUrlErrorView::MissingRepo => "missing repo"@,
    }
}

impl RepositoryUrlError {
    /// The message of the error.
    pub fn message(&self) -> (res: String)
        ensures
            res@ == repository_url_error_message(self@),
    {
        match self {
            RepositoryUrlError::InvalidUrl => owned("invalid URL"),
            RepositoryUrlError::NotGithub(url) => {
                let mut m = owned("not a github.com URL: ");
                m.append(url.as_str());
                m
            },
            RepositoryUrlError::NoPathSegments => owned("no path segments in URL"),
            RepositoryUrlError::MissingOwner => owned("missing owner"),
            RepositoryUrlError::MissingRepo => owned("missing repo"),
        }
    }
}

/// A result of the library as plain values.
pub open spec fn api_result_view(res: Result<String, RepositoryUrlError>) -> Result<Seq<char>, RepositoryUrlErrorView> {
    match res {
        Ok(s) => Ok(s@),
        Err(e) => Err(e@),
    }
}

/// Whether `s` ends with `.git`.
pub open spec fn ends_with_git(s: Seq<char>) -> bool {
    s.len() >= 4 && s.subrange(s.len() - 4, s.len() as int) == ".git"@
}

/// `s` without every `.git` at its end (as `str::trim_end_matches(".git")`).
pub open spec fn trim_git(s: Seq<char>) -> Seq<char>
    decreases s.len(),
{
    if ends_with_git(s) { trim_git(s.subrange(0, s.len() - 4)) } else { s }
}

/// `s` without every `.git` at its end.
pub fn trim_git_suffix(s: &str) -> (res: String)
    ensures
        res@ == trim_git(s@),
{
    let mut end = s.unicode_len();
    assert(s@.subrange(0, end as int) =~= s@);
    while end >= 4 && s.get_char(end - 4) == '.' && s.get_char(end - 3) == 'g' && s.get_char(end - 2) == 'i'
        && s.get_char(end - 1) == 't'
        invariant
            end <= s@.len(),
            trim_git(s@) == trim_git(s@.subrange(0, end as int)),
        decreases end,
    {
        proof { reveal_strlit(".git"); }
        let ghost t = s@.subrange(0, end as int);
        assert(t.subrange(t.len() - 4, t.len() as int) =~= ".git"@);
        assert(t.subrange(0, t.len() - 4) =~= s@.subrange(0, end - 4));
        end = end - 4;
    }
    proof {
        reveal_strlit(".git");
        let t = s@.subrange(0, end as int);
        if ends_with_git(t) {
            assert(t.subrange(t.len() - 4, t.len() as int)[0] == '.');
            assert(t.subrange(t.len() - 4, t.len() as int)[1] == 'g');
            assert(t.subrange(t.len() - 4, t.len() as int)[2] == 'i');
            assert(t.subrange(t.len() - 4, t.len() as int)[3] == 't');
        }
    }
    owned(s.substring_char(0, end))
}

/// The GitHub API address that lists the files at the top of the repository
/// `owner/name`, with every `.git` removed from the end of `name`.
pub open spec fn contents_api_url(owner: Seq<char>, name: Seq<char>) -> Seq<char> {
    "https://api.github.com/repos/"@ + owner + "/"@ + trim_git(name) + "/contents/"@
}

/// What the API address of a repository URL is, given the parts of the URL.
pub open spec fn api_url_from(repo_url: Seq<char>, parts: UrlPartsView) -> Result<Seq<char>, RepositoryUrlErrorView> {
    if parts.0 != Some("github.com"@) {
        Err(RepositoryUrlErrorView::NotGithub(repo_url))
    } else {
        match parts.1 {
            None => Err(RepositoryUrlErrorView::NoPathSegments),
            Some(segments) => if segments.len() == 0 {
                Err(RepositoryUrlErrorView::MissingOwner)
            } else if segments.len() == 1 {
                Err(RepositoryUrlErrorView::MissingRepo)
            } else {
                Ok(contents_api_url(segments[0], segments[1]))
            },
        }
    }
}

/// The API address of the repository `repo_url`, given what its URL parses to: the
/// host must be `github.com`, the path must have an owner and a repository name.
pub fn api_url_from_parts(repo_url: &str, parts: &UrlParts) -> (res: Result<String, RepositoryUrlError>)
    ensures
        api_result_view(res) == api_url_from(repo_url@, parts@),
{
    proof { reveal_strlit("github.com"); }
    let github = match &parts.host {
        Some(h) => crate::text::str_eq(h.as_str(), "github.com"),
        None => false,
    };
    if !github {
        return Err(RepositoryUrlError::NotGithub(owned(repo_url)));
    }
    match &parts.path_segments {
        None => Err(RepositoryUrlError::NoPathSegments),
        Some(segments) => {
            if segments.len() == 0 {
                Err(RepositoryUrlError::MissingOwner)
            } else if segments.len() == 1 {
                Err(RepositoryUrlError::MissingRepo)
            } else {
                let mut url = owned("https://api.github.com/repos/");
                url.append(segments[0].as_str());
                push_char(&mut url, '/');
                let name = trim_git_suffix(segments[1].as_str());
                url.append(name.as_str());
                url.append("/contents/");
                proof { reveal_strlit("/"); }
                assert(url@ =~= contents_api_url(segments@[0]@, segments@[1]@));
                Ok(url)
            }
        },
    }
}

/// The API address that lists the top-level files of the GitHub repository `repo_url`.
pub fn api_url_from_repo_url(repo_url: &str) -> (res: Result<String, RepositoryUrlError>)
    ensures
        match url_parts(repo_url@) {
            None => api_result_view(res) == Err::<Seq<char>, RepositoryUrlErrorView>(RepositoryUrlErrorView::InvalidUrl),
            Some(parts) => api_result_view(res) == api_url_from(repo_url@, parts),
        },
{
    match parse_url(repo_url) {
        None => Err(RepositoryUrlError::InvalidUrl),
        Some(parts) => api_url_from_parts(repo_url, &parts),
    }
}

/// A file in a repository's listing: its name, and where to download it (if given).
pub struct GithubFileInfo {
    pub name: String,
    pub download_url: Option<String>,
}

/// A license file found in a package's repository: its name and where to download it.
pub struct RemoteLicense {
    pub name: String,
    pub location: String,
}

/// Whether the kept license files are those of the listing whose names hold a keyword,
/// in order, each with its download address.
pub open spec fn kept_remote(keywords: Seq<Seq<char>>, files: Seq<GithubFileInfo>, kept: Seq<RemoteLicense>) -> bool
    decreases files.len(),
{
    if files.len() == 0 {
        kept.len() == 0
    } else {
        let f = files.last();
        if is_license_name(keywords, f.name@) {
            &&& kept.len() > 0
            &&& f.download_url matches Some(u) && kept.last().location@ == u@
            &&& kept.last().name@ == f.name@
            &&& kept_remote(keywords, files.drop_last(), kept.drop_last())
        } else {
            kept_remote(keywords, files.drop_last(), kept)
        }
    }
}

/// Whether some license file of the listing has no download address.
pub open spec fn license_without_url(keywords: Seq<Seq<char>>, files: Seq<GithubFileInfo>) -> bool {
    exists|i: int| 0 <= i < files.len() && is_license_name(keywords, (#[trigger] files[i]).name@) && files[i].download_url is None
}

/// The license files of a repository listing: those whose names hold a keyword (ignoring
/// case), in order; `None` where such a file has no download address.
pub fn remote_licenses_from_listing(keywords: &[String], files: Vec<GithubFileInfo>) -> (res: Option<Vec<RemoteLicense>>)
    ensures
        match res {
            Some(kept) => kept_remote(keywords@.map_values(|k: String| k@), files@, kept@),
            None => license_without_url(keywords@.map_values(|k: String| k@), files@),
        },
{
    let ghost ks = keywords@.map_values(|k: String| k@);
    let mut kept: Vec<RemoteLicense> = Vec::new();
    let mut i: usize = 0;
    while i < files.len()
        invariant
            i <= files@.len(),
            ks == keywords@.map_values(|k: String| k@),
            kept_remote(ks, files@.subrange(0, i as int), kept@),
        decreases files@.len() - i,
    {
        let f = &files[i];
        assert(files@.subrange(0, i + 1).drop_last() =~= files@.subrange(0, i as int));
        if is_license(keywords, f.name.as_str()) {
            match &f.download_url {
                Some(u) => {
                    let ghost before = kept@;
                    kept.push(RemoteLicense { name: f.name.clone(), location: u.clone() });
                    assert(kept@.drop_last() =~= before);
                },
                None => {
                    assert(files@[i as int] == *f);
                    return None;
                },
            }
        }
        i = i + 1;
    }
    assert(files@.subrange(0, i as int) =~= files@);
    Some(kept)
}

/// Whether `urls` are the download addresses, in order, of the listed files whose names
/// are license file names; files without an address are passed over.
pub open spec fn license_urls(files: Seq<GithubFileInfo>, urls: Seq<Seq<char>>) -> bool
    decreases files.len(),
{
    if files.len() == 0 {
        urls.len() == 0
    } else {
        let f = files.last();
        match f.download_url {
            Some(u) if is_license_file_name(f.name@) => urls.len() > 0 && urls.last() == u@
                && license_urls(files.drop_last(), urls.drop_last()),
            _ => license_urls(files.drop_last(), urls),
        }
    }
}

/// The download addresses of the listed license files (recognised by the fixed list of
/// license file names), in order; files without an address are passed over.
pub fn license_file_urls_from_listing(files: &Vec<GithubFileInfo>) -> (res: Vec<String>)
    ensures
        license_urls(files@, res@.map_values(|u: String| u@)),
{
    let mut urls: Vec<String> = Vec::new();
    let mut i: usize = 0;
    while i < files.len()
        invariant
            i <= files@.len(),
            license_urls(files@.subrange(0, i as int), urls@.map_values(|u: String| u@)),
        decreases files@.len() - i,
    {
        let f = &files[i];
        assert(files@.subrange(0, i + 1).drop_last() =~= files@.subrange(0, i as int));
        let path = LicensePath { directory: String::new(), file_name: f.name.clone() };
        if crate::files::is_license(&path) {
            match &f.download_url {
                Some(u) => {
                    let ghost before = urls@.map_values(|u: String| u@);
                    urls.push(u.clone());
                    assert(urls@.map_values(|u: String| u@).drop_last() =~= before);
                },
                None => {},
            }
        }
        i = i + 1;
    }
    assert(files@.subrange(0, i as int) =~= files@);
    urls
}

} // verus!
