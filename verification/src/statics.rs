use vstd::prelude::*;

verus! {

/// Where the file for a request path lies under the static directory: the
/// path under `static/`, and `index.html` inside it when the path ends with
/// a slash.
pub open spec fn static_file_path_of(path: Seq<char>) -> Seq<char> {
    if path.last() == '/' {
        "static/"@ + path + "index.html"@
    } else {
        "static/"@ + path
    }
}

/// The file that serves `path` when no route answers it.
pub fn static_file_path(path: &str) -> (r: String)
    requires
        path@.len() > 0,
        (path@.last() as u32) < 128,
    ensures
        r@ == static_file_path_of(path@),
{
    let last = path.get_char(path.unicode_len() - 1);
    let mut r = String::from_str("static/");
    r.append(path);
    if last == '/' {
        r.append("index.html");
    }
    r
}

/// The media types that `mime_guess` associates with the extension of a
/// path, most likely first; empty when it knows none.
pub uninterp spec fn mime_guesses(path: Seq<char>) -> Seq<Seq<char>>;

/// Calls `mime_guess::from_path` and lists the guessed media types as text,
/// in the guess's order. The guess is a function of the path's text alone
/// (a fixed table by extension, no disk access); which types the table holds
/// is not stated here.
#[verifier::external_body]
fn guess_mime_types(path: &str) -> (r: Vec<String>)
    ensures
        r@.map_values(|m: String| m@) == mime_guesses(path@),
{
    mime_guess::from_path(path).iter_raw().map(|m| m.to_string()).collect()
}

/// The media type to announce for a static file: the first type guessed from
/// its extension, or `application/octet-stream` when none is known.
pub fn static_mime(file_path: &str) -> (r: String)
    ensures
        r@ == (if mime_guesses(file_path@).len() > 0 {
            mime_guesses(file_path@)[0]
        } else {
            "application/octet-stream"@
        }),
{
    let guesses = guess_mime_types(file_path);
    if guesses.len() > 0 {
        let first = guesses[0].clone();
        first
    } else {
        String::from_str("application/octet-stream")
    }
}

} // verus!
