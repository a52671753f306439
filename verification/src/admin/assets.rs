//! The files of the web page, which are part of the program.

use crate::scan;
use crate::text;
use include_dir::Dir;
use vstd::prelude::*;

verus! {

/// A directory that is part of the program.
#[verifier::external_type_specification]
#[verifier::external_body]
pub struct ExDir<'a>(Dir<'a>);

/// The contents of the files of a directory, each by the paths under which
/// it is found.
pub uninterp spec fn dir_files(dir: Dir<'static>) -> Map<Seq<char>, Seq<u8>>;

/// `Dir::get_file` looks a file up by its path, and `File::contents` gives
/// what it holds.
#[verifier::external_body]
fn file_contents(dir: &Dir<'static>, path: &str) -> (r: Option<&'static [u8]>)
    ensures
        match r {
            Some(b) => dir_files(*dir).contains_key(path@) && dir_files(*dir)[path@] == b@,
            None => !dir_files(*dir).contains_key(path@),
        },
{
    match dir.get_file(path) {
        Some(file) => Some(file.contents()),
        None => None,
    }
}

/// The type of a file, by what follows the last dot of its path.
pub open spec fn mime_of(path: Seq<char>) -> Seq<char> {
    match scan::after_last(path, '.') {
        Some(ext) => if ext == "html"@ {
            "text/html; charset=utf-8"@
        } else if ext == "css"@ {
            "text/css; charset=utf-8"@
        } else if ext == "js"@ || ext == "mjs"@ {
            "application/javascript; charset=utf-8"@
        } else if ext == "json"@ {
            "application/json; charset=utf-8"@
        } else if ext == "svg"@ {
            "image/svg+xml"@
        } else if ext == "png"@ {
            "image/png"@
        } else if ext == "ico"@ {
            "image/x-icon"@
        } else if ext == "woff2"@ {
            "font/woff2"@
        } else {
            "application/octet-stream"@
        },
        None => "application/octet-stream"@,
    }
}

/// The type of a file.
pub fn mime_for(path: &str) -> (r: &'static str)
    ensures
        r@ == mime_of(path@),
{
    match scan::rsplit_after(path, '.') {
        Some(ext) => {
            let e = ext.as_str();
            if text::same(e, "html") {
                "text/html; charset=utf-8"
            } else if text::same(e, "css") {
                "text/css; charset=utf-8"
            } else if text::same(e, "js") || text::same(e, "mjs") {
                "application/javascript; charset=utf-8"
            } else if text::same(e, "json") {
                "application/json; charset=utf-8"
            } else if text::same(e, "svg") {
                "image/svg+xml"
            } else if text::same(e, "png") {
                "image/png"
            } else if text::same(e, "ico") {
                "image/x-icon"
            } else if text::same(e, "woff2") {
                "font/woff2"
            } else {
                "application/octet-stream"
            }
        },
        None => "application/octet-stream",
    }
}

/// The path of the file that is asked for: without a slash in front, and the
/// page itself where nothing is left.
pub open spec fn path_of(rest: Seq<char>) -> Seq<char> {
    let path = match scan::prefix_stripped(rest, "/"@) {
        Some(p) => p,
        None => rest,
    };
    if path.len() == 0 {
        "index.html"@
    } else {
        path
    }
}

/// A file to answer with.
#[derive(Debug)]
pub struct Asset {
    pub mime: &'static str,
    pub cache_control: &'static str,
    pub contents: &'static [u8],
}

/// The answer is the file at the path in the directory, or that there is
/// none.
pub open spec fn answers(dir: Dir<'static>, path: Seq<char>, r: Option<Asset>) -> bool {
    match r {
        Some(a) => {
            &&& dir_files(dir).contains_key(path)
            &&& a.contents@ == dir_files(dir)[path]
            &&& a.mime@ == mime_of(path)
            &&& a.cache_control@ == "public, max-age=60, must-revalidate"@
        },
        None => !dir_files(dir).contains_key(path),
    }
}

/// A file with its contents, or that there is none.
pub open spec fn has_contents(path: Seq<char>, contents: Option<Seq<u8>>, r: Option<Asset>) -> bool {
    match r {
        Some(a) => {
            &&& contents == Some(a.contents@)
            &&& a.mime@ == mime_of(path)
            &&& a.cache_control@ == "public, max-age=60, must-revalidate"@
        },
        None => contents is None,
    }
}

/// The contents of a file, where there is one.
pub open spec fn opt_bytes(contents: Option<&'static [u8]>) -> Option<Seq<u8>> {
    match contents {
        Some(b) => Some(b@),
        None => None,
    }
}

/// The answer for the file at `path`, with what it holds. Files change with
/// the program only, so that a short time in caches is enough.
pub fn asset(path: &str, contents: Option<&'static [u8]>) -> (r: Option<Asset>)
    ensures
        has_contents(path@, opt_bytes(contents), r),
{
    match contents {
        Some(b) => Some(
            Asset {
                mime: mime_for(path),
                cache_control: "public, max-age=60, must-revalidate",
                contents: b,
            },
        ),
        None => None,
    }
}

/// The page itself.
pub fn index(dir: &Dir<'static>) -> (r: Option<Asset>)
    ensures
        answers(*dir, "index.html"@, r),
{
    asset("index.html", file_contents(dir, "index.html"))
}

/// The file that is asked for by `rest`.
pub fn serve(dir: &Dir<'static>, rest: &str) -> (r: Option<Asset>)
    ensures
        answers(*dir, path_of(rest@), r),
{
    let path = match scan::strip_prefix(rest, "/") {
        Some(p) => p,
        None => rest.to_owned(),
    };
    if text::is_empty(path.as_str()) {
        return index(dir);
    }
    asset(path.as_str(), file_contents(dir, path.as_str()))
}

} // verus!
