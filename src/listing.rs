//! The HTML page that lists a directory.
use vstd::prelude::*;
use vstd::string::StringExecFns;

verus! {

/// What a served directory is.
#[derive(Debug, Clone)]
pub struct AppState {
    pub dir: String,
}

/// Whether an entry is a plain file or a directory.
#[derive(Debug, Clone, Copy, PartialEq, Eq, Structural)]
pub enum FileType {
    File,
    Dir,
}

/// One entry of a listing.
#[derive(Debug, Clone)]
pub struct FileIndex {
    pub file_name: String,
    /// The entry's path, as text.
    pub uri: String,
    pub file_type: FileType,
    pub content: Option<Vec<u8>>,
}

/// The head of a listing page, up to its first entry.
pub open spec fn page_head() -> Seq<char> {
    "<!DOCTYPE html>\n        <html lang=\"en\">\n        <head>\n            <meta charset=\"UTF-8\">\n            <meta name=\"viewport\" content=\"width=device-width, initial-scale=1.0\">\n            <title>Index Of</title>\n        </head>\n        <body>\n        <h1>Index Of</h1>\n        "@
}

/// The link of one entry: files are offered for download.
pub open spec fn entry_html(e: FileIndex) -> Seq<char> {
    match e.file_type {
        FileType::File => "<a href='/"@ + e.uri@ + "' download>"@ + e.file_name@ + "</a><br/>"@,
        FileType::Dir => "<a href='/"@ + e.uri@ + "'>"@ + e.file_name@ + "</a><br/>"@,
    }
}

/// The links of `list`, in order.
pub open spec fn entries_html(list: Seq<FileIndex>) -> Seq<char>
    decreases list.len(),
{
    if list.len() == 0 {
        Seq::empty()
    } else {
        entries_html(list.drop_last()) + entry_html(list.last())
    }
}

/// The whole page for `list`.
pub open spec fn listing_html(list: Seq<FileIndex>) -> Seq<char> {
    page_head() + entries_html(list) + "</body></html>"@
}

/// Renders the listing page of `list`.
pub fn build_html(list: &Vec<FileIndex>) -> (r: String)
    ensures
        r@ == listing_html(list@),
{
    let mut html = String::from_str(
        "<!DOCTYPE html>\n        <html lang=\"en\">\n        <head>\n            <meta charset=\"UTF-8\">\n            <meta name=\"viewport\" content=\"width=device-width, initial-scale=1.0\">\n            <title>Index Of</title>\n        </head>\n        <body>\n        <h1>Index Of</h1>\n        ",
    );
    let mut i: usize = 0;
    while i < list.len()
        invariant
            i <= list@.len(),
            html@ == page_head() + entries_html(list@.take(i as int)),
        decreases list@.len() - i,
    {
        let fi = &list[i];
        html.append("<a href='/");
        html.append(fi.uri.as_str());
        match fi.file_type {
            FileType::File => html.append("' download>"),
            FileType::Dir => html.append("'>"),
        }
        html.append(fi.file_name.as_str());
        html.append("</a><br/>");
        proof {
            let t = list@.take(i as int + 1);
            assert(t.drop_last() =~= list@.take(i as int));
            assert(t.last() == list@[i as int]);
            assert(html@ =~= page_head() + entries_html(list@.take(i as int)) + entry_html(list@[i as int]));
        }
        i = i + 1;
    }
    html.append("</body></html>");
    proof {
        assert(list@.take(list@.len() as int) =~= list@);
    }
    html
}

} // verus!
