//! The reading page: it hands a book to the viewer plugin for its format.

use vstd::prelude::*;
use vstd::string::*;
use crate::plugin::PluginManifest;
use crate::text;

verus! {

/// Text in quotes, with escapes for what needs them.
pub uninterp spec fn escaped_literal(s: Seq<char>) -> Seq<char>;

/// Every character is an ASCII letter or digit.
pub open spec fn is_word(s: Seq<char>) -> bool {
    forall|i: int| 0 <= i < s.len() ==> text::is_word_char(#[trigger] s[i])
}

/// Text as a quoted literal: letters and digits stand for themselves.
pub open spec fn literal(s: Seq<char>) -> Seq<char> {
    if is_word(s) {
        "\""@ + s + "\""@
    } else {
        escaped_literal(s)
    }
}

/// `Debug` of `str` puts text in quotes, and escapes what needs it; ASCII
/// letters and digits do not. The escapes are not spelled out.
#[verifier::external_body]
fn quote(s: &str) -> (r: String)
    ensures
        r@ == if is_word(s@) {
            "\""@ + s@ + "\""@
        } else {
            escaped_literal(s@)
        },
{
    format!("{s:?}")
}

/// The script that wires a viewer to a book: where its file is, where reading
/// stopped, and where to report progress.
pub open spec fn bootstrap(id: Seq<char>, format: Seq<char>, saved: Seq<char>) -> Seq<char> {
    "window.Shelfarr = {\n  book: { id: "@ + id + ", format: "@ + format
        + ", fileUrl: \"/books/"@ + id + "/file\" },\n  saved: "@ + saved
        + ",\n  registerViewer(v) {\n    const el = document.getElementById('viewer');\n    v.mount(el, {\n      fileUrl: this.book.fileUrl,\n      progress: this.saved,\n      onProgress: (p) => fetch('/progress/"@
        + id
        + "', {\n        method: 'POST', headers: { 'Content-Type': 'application/json' },\n        body: JSON.stringify({ viewer: v.id, position: p, percent: p.percent })\n      })\n    });\n  }\n};"@
}

/// The script that wires a viewer to a book, given the format as a literal.
pub fn bootstrap_script(id: i64, format: &str, saved: &str) -> (r: String)
    ensures
        r@ == bootstrap(text::decimal_of(id as int), format@, saved@),
{
    let n = text::decimal(id);
    let mut s = "window.Shelfarr = {\n  book: { id: ".to_string();
    s.append(n.as_str());
    s.append(", format: ");
    s.append(format);
    s.append(", fileUrl: \"/books/");
    s.append(n.as_str());
    s.append("/file\" },\n  saved: ");
    s.append(saved);
    s.append(
        ",\n  registerViewer(v) {\n    const el = document.getElementById('viewer');\n    v.mount(el, {\n      fileUrl: this.book.fileUrl,\n      progress: this.saved,\n      onProgress: (p) => fetch('/progress/",
    );
    s.append(n.as_str());
    s.append(
        "', {\n        method: 'POST', headers: { 'Content-Type': 'application/json' },\n        body: JSON.stringify({ viewer: v.id, position: p, percent: p.percent })\n      })\n    });\n  }\n};",
    );
    s
}

/// The address of a file of a plugin.
pub open spec fn plugin_file(id: Seq<char>, file: Seq<char>) -> Seq<char> {
    "/plugins/"@ + id + "/"@ + file
}

fn plugin_href(id: &str, file: &str) -> (r: String)
    ensures
        r@ == plugin_file(id@, file@),
{
    let mut u = "/plugins/".to_string();
    u.append(id);
    u.append("/");
    u.append(file);
    u
}

/// The reading page of a book.
pub struct ReaderPage {
    pub bootstrap: String,
    pub css: Option<String>,
    pub js: String,
}

/// The reading page of a book in a viewer, at the position that is saved;
/// nothing where the plugin brings no viewer files.
pub fn read(id: i64, format: &str, viewer: &PluginManifest, saved: &Option<String>) -> (r: Option<
    ReaderPage,
>)
    ensures
        match viewer.ui {
            Some(ui) => r matches Some(p) && p.bootstrap@ == bootstrap(
                text::decimal_of(id as int),
                literal(format@),
                match *saved {
                    Some(s) => s@,
                    None => "null"@,
                },
            ) && p.css.deep_view() == (match ui.css {
                Some(c) => Some(plugin_file(viewer.id@, c@)),
                None => None,
            }) && p.js@ == plugin_file(viewer.id@, ui.js@),
            None => r is None,
        },
{
    let ui = match &viewer.ui {
        Some(ui) => ui,
        None => {
            return None;
        },
    };
    let position = match saved {
        Some(s) => s.clone(),
        None => "null".to_string(),
    };
    let css = match &ui.css {
        Some(c) => Some(plugin_href(viewer.id.as_str(), c.as_str())),
        None => None,
    };
    Some(
        ReaderPage {
            bootstrap: bootstrap_script(id, quote(format).as_str(), position.as_str()),
            css,
            js: plugin_href(viewer.id.as_str(), ui.js.as_str()),
        },
    )
}

/// What the page says where no viewer shows the format.
pub fn no_viewer(format: &str) -> (r: String)
    ensures
        r@ == "No viewer for “"@ + format@ + "”"@,
{
    let mut s = "No viewer for “".to_string();
    s.append(format);
    s.append("”");
    s
}

/// The script of the reading page names the book's own file, takes up the saved
/// position, and reports progress to the book's own address.
pub proof fn law_bootstrap(id: Seq<char>, format: Seq<char>, saved: Seq<char>)
    ensures
        exists|i: int|
            #[trigger] text::occurs_at(
                bootstrap(id, format, saved),
                "fileUrl: \"/books/"@ + id + "/file\""@,
                i,
            ),
        exists|i: int|
            #[trigger] text::occurs_at(
                bootstrap(id, format, saved),
                "saved: "@ + saved + ",\n"@,
                i,
            ),
        exists|i: int|
            #[trigger] text::occurs_at(
                bootstrap(id, format, saved),
                "fetch('/progress/"@ + id + "'"@,
                i,
            ),
{
    reveal_strlit("window.Shelfarr = {\n  book: { id: ");
    reveal_strlit(", format: ");
    reveal_strlit(", fileUrl: \"/books/");
    reveal_strlit("fileUrl: \"/books/");
    reveal_strlit("/file\" },\n  saved: ");
    reveal_strlit("/file\"");
    reveal_strlit("saved: ");
    reveal_strlit(",\n");
    reveal_strlit(
        ",\n  registerViewer(v) {\n    const el = document.getElementById('viewer');\n    v.mount(el, {\n      fileUrl: this.book.fileUrl,\n      progress: this.saved,\n      onProgress: (p) => fetch('/progress/",
    );
    reveal_strlit("fetch('/progress/");
    reveal_strlit("'");
    reveal_strlit(
        "', {\n        method: 'POST', headers: { 'Content-Type': 'application/json' },\n        body: JSON.stringify({ viewer: v.id, position: p, percent: p.percent })\n      })\n    });\n  }\n};",
    );
    let s = bootstrap(id, format, saved);
    let start = "window.Shelfarr = {\n  book: { id: "@ + id + ", format: "@ + format;
    let file = "fileUrl: \"/books/"@ + id + "/file\""@;
    let i = start.len() as int + 2;
    assert(s.subrange(i, i + file.len()) =~= file);
    assert(text::occurs_at(s, file, i));
    let before = start + ", fileUrl: \"/books/"@ + id + "/file\" },\n  saved: "@;
    let at = "saved: "@ + saved + ",\n"@;
    let j = before.len() - 7;
    assert(s.subrange(j, j + at.len()) =~= at);
    assert(text::occurs_at(s, at, j));
    let middle = ",\n  registerViewer(v) {\n    const el = document.getElementById('viewer');\n    v.mount(el, {\n      fileUrl: this.book.fileUrl,\n      progress: this.saved,\n      onProgress: (p) => fetch('/progress/"@;
    let call = "fetch('/progress/"@ + id + "'"@;
    let k = (before + saved + middle).len() - "fetch('/progress/"@.len();
    assert(s.subrange(k, k + call.len()) =~= call);
    assert(text::occurs_at(s, call, k));
}

/// The files of a viewer are those of its own plugin.
pub proof fn law_plugin_file(id: Seq<char>, file: Seq<char>)
    ensures
        text::occurs_at(plugin_file(id, file), "/plugins/"@ + id + "/"@, 0),
        text::ends(plugin_file(id, file), "/"@ + file),
{
    let s = plugin_file(id, file);
    let front = "/plugins/"@ + id + "/"@;
    let back = "/"@ + file;
    assert(s.subrange(0, front.len() as int) =~= front);
    assert(s.subrange(s.len() - back.len(), s.len() as int) =~= back);
}

/// A format of letters and digits stands in the script between quotes.
pub proof fn law_literal(s: Seq<char>)
    requires
        forall|i: int| 0 <= i < s.len() ==> text::is_word_char(#[trigger] s[i]),
    ensures
        literal(s) == seq!['"'] + s + seq!['"'],
{
    reveal_strlit("\"");
    assert("\""@ =~= seq!['"']);
}

/// The reading page of a book loads the files of its viewer and of no other plugin,
/// and takes up the position that is saved for the book; a plugin without viewer
/// files has no page.
pub proof fn law_read(
    id: i64,
    format: &str,
    viewer: &PluginManifest,
    saved: &Option<String>,
    r: Option<ReaderPage>,
)
    requires
        call_ensures(read, (id, format, viewer, saved), r),
    ensures
        r is Some <==> viewer.ui is Some,
        r matches Some(p) ==> {
            let book = text::decimal_of(id as int);
            &&& text::occurs_at(p.js@, "/plugins/"@ + viewer.id@ + "/"@, 0)
            &&& text::ends(p.js@, "/"@ + viewer.ui->0.js@)
            &&& p.css is Some <==> viewer.ui->0.css is Some
            &&& p.css matches Some(css) ==> text::occurs_at(
                css@,
                "/plugins/"@ + viewer.id@ + "/"@,
                0,
            )
            &&& exists|i: int|
                #[trigger] text::occurs_at(
                    p.bootstrap@,
                    "fileUrl: \"/books/"@ + book + "/file\""@,
                    i,
                )
            &&& saved matches Some(s) ==> exists|i: int|
                #[trigger] text::occurs_at(p.bootstrap@, "saved: "@ + s@ + ",\n"@, i)
            &&& saved is None ==> exists|i: int|
                #[trigger] text::occurs_at(p.bootstrap@, "saved: "@ + "null"@ + ",\n"@, i)
        },
{
    if let Some(ui) = viewer.ui {
        let place = match *saved {
            Some(s) => s@,
            None => "null"@,
        };
        law_bootstrap(text::decimal_of(id as int), literal(format@), place);
        law_plugin_file(viewer.id@, ui.js@);
        if let Some(c) = ui.css {
            law_plugin_file(viewer.id@, c@);
        }
    }
}

} // verus!
