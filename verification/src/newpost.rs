//! The text a new date-stamped post starts from: its file name and its
//! front matter, built from a title and a formatted date.  Reading the
//! clock, prompting, and writing the file stay with the caller.

use vstd::prelude::*;

verus! {

/// The file name of a new post: the date, a dash, the title, and the
/// Markdown suffix.
pub fn post_file_name(date_str: &str, title: &str) -> (r: String)
    ensures
        r@ == date_str@ + "-"@ + title@ + ".md"@,
{
    let mut r = date_str.to_owned();
    r.append("-");
    r.append(title);
    r.append(".md");
    r
}

/// The front matter of a new post: a TOML block holding the title and the
/// date, each quoted.
pub fn post_front_matter(date_str: &str, title: &str) -> (r: String)
    ensures
        r@ == "+++\ntitle = \""@ + title@ + "\"\ndate = \""@ + date_str@ + "\"\n+++"@,
{
    let mut r = String::from_str("+++\ntitle = \"");
    r.append(title);
    r.append("\"\ndate = \"");
    r.append(date_str);
    r.append("\"\n+++");
    r
}

} // verus!
