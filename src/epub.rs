use vstd::prelude::*;

use std::io::Cursor;
use std::io::Write;
use zip::result::ZipError;
use zip::write::SimpleFileOptions;
use zip::{CompressionMethod, ZipWriter};

use crate::blocks::{render_markup, render_markup_chars};
use crate::chapter::{new_id, uuid_text, Chapter};
use crate::inline::{escape, escape_chars, Escape};
use crate::project::{ProjectError, ProjectMetadata};
use crate::search::{utf8_width, width_of};
use crate::text::{decimal, digit, push_chars, push_decimal, push_str, string_of, to_chars};
use crate::time::{format_utc_seconds, now, utc_seconds_text};

verus! {

/// The start of each XHTML document of the book, up to its title.
pub const XHTML_HEAD: &'static str = r#"<?xml version="1.0" encoding="UTF-8"?>
<!DOCTYPE html>
<html xmlns="http://www.w3.org/1999/xhtml" xmlns:epub="http://www.idpf.org/2007/ops" xml:lang="en" lang="en">
<head>
  <meta charset="UTF-8" />
  <title>"#;

/// From the title page's head to its heading.
pub const TITLE_PAGE_HEADING: &'static str = r#"</title>
  <link rel="stylesheet" type="text/css" href="style.css" />
</head>
<body>
  <div class="title-page">
    <h1>"#;

/// Between the title page's heading and its author.
pub const TITLE_PAGE_AUTHOR: &'static str = r#"</h1>
    <p class="author">by "#;

/// The end of the title page.
pub const TITLE_PAGE_END: &'static str = r#"</p>
  </div>
</body>
</html>"#;

/// From a chapter document's head to its heading.
pub const CHAPTER_HEADING: &'static str = r#"</title>
  <link rel="stylesheet" type="text/css" href="style.css" />
</head>
<body>
  <h2>"#;

/// Between a chapter document's heading and its body.
pub const CHAPTER_BODY: &'static str = r#"</h2>
"#;

/// The end of a chapter document.
pub const CHAPTER_END: &'static str = r#"</body>
</html>"#;

/// The navigation document up to its list of links.
pub const NAV_HEAD: &'static str = r#"<?xml version="1.0" encoding="UTF-8"?>
<!DOCTYPE html>
<html xmlns="http://www.w3.org/1999/xhtml" xmlns:epub="http://www.idpf.org/2007/ops" xml:lang="en" lang="en">
<head>
  <meta charset="UTF-8" />
  <title>Table of Contents</title>
  <link rel="stylesheet" type="text/css" href="style.css" />
</head>
<body>
  <nav epub:type="toc" id="toc">
    <h1>Table of Contents</h1>
    <ol>
"#;

/// The end of the navigation document.
pub const NAV_END: &'static str = r#"    </ol>
  </nav>
</body>
</html>"#;

/// The NCX document up to its identifier.
pub const NCX_HEAD: &'static str = r#"<?xml version="1.0" encoding="UTF-8"?>
<ncx xmlns="http://www.daisy.org/z3986/2005/ncx/" version="2005-1">
  <head>
    <meta name="dtb:uid" content="quillborn-"#;

/// Between the NCX identifier and the book title.
pub const NCX_TITLE: &'static str = r#"" />
    <meta name="dtb:depth" content="1" />
    <meta name="dtb:totalPageCount" content="0" />
    <meta name="dtb:maxPageNumber" content="0" />
  </head>
  <docTitle>
    <text>"#;

/// Between the NCX book title and its navigation points.
pub const NCX_MAP: &'static str = r#"</text>
  </docTitle>
  <navMap>
"#;

/// The end of the NCX document.
pub const NCX_END: &'static str = r#"  </navMap>
</ncx>"#;

/// The NCX navigation point of the title page.
pub const NCX_TITLE_POINT: &'static str = r#"    <navPoint id="title" playOrder="1">
      <navLabel><text>Title Page</text></navLabel>
      <content src="title.xhtml" />
    </navPoint>
"#;

/// The package document up to the book identifier.
pub const OPF_HEAD: &'static str = r#"<?xml version="1.0" encoding="UTF-8"?>
<package xmlns="http://www.idpf.org/2007/opf" version="3.0" unique-identifier="book-id">
  <metadata xmlns:dc="http://purl.org/dc/elements/1.1/">
    <dc:identifier id="book-id">urn:uuid:"#;

/// Between the book identifier and the title.
pub const OPF_TITLE: &'static str = r#"</dc:identifier>
    <dc:title>"#;

/// Between the title and the author.
pub const OPF_CREATOR: &'static str = r#"</dc:title>
    <dc:creator>"#;

/// Between the author and the modification time.
pub const OPF_MODIFIED: &'static str = r#"</dc:creator>
    <dc:language>en</dc:language>
    <meta property="dcterms:modified">"#;

/// Between the modification time and the manifest items.
pub const OPF_MANIFEST: &'static str = r#"</meta>
  </metadata>
  <manifest>
"#;

/// Between the manifest items and the spine items.
pub const OPF_SPINE: &'static str = r#"  </manifest>
  <spine toc="ncx">
"#;

/// The end of the package document.
pub const OPF_END: &'static str = r#"  </spine>
</package>"#;

/// The container document, which points to the package document.
pub const CONTAINER_XML: &'static str = r#"<?xml version="1.0" encoding="UTF-8"?>
<container version="1.0" xmlns="urn:oasis:names:tc:opendocument:xmlns:container">
  <rootfiles>
    <rootfile full-path="OEBPS/content.opf" media-type="application/oebps-package+xml" />
  </rootfiles>
</container>"#;

/// The book's stylesheet.
pub const EPUB_CSS: &'static str = r#"body {
  font-family: "Georgia", "Times New Roman", serif;
  line-height: 1.7;
  color: #2a2a2a;
  margin: 1em;
}
h1 {
  text-align: center;
  font-size: 2em;
  margin-bottom: 0.3em;
}
h2 {
  font-size: 1.5em;
  margin-top: 2em;
  margin-bottom: 1em;
}
p {
  margin-bottom: 0.8em;
  text-align: justify;
  text-indent: 1.5em;
}
.author {
  text-align: center;
  font-style: italic;
  color: #666;
  margin-bottom: 2em;
}
.title-page {
  text-align: center;
  padding-top: 30%;
}
blockquote {
  margin: 1em 2em;
  padding-left: 1em;
  border-left: 3px solid #999;
  font-style: italic;
}
blockquote p {
  text-indent: 0;
}
ul, ol {
  margin: 1em 0 1em 2em;
}
li {
  margin-bottom: 0.3em;
}
hr {
  border: none;
  border-top: 1px solid #ccc;
  margin: 2em 0;
}
code {
  font-family: "Courier New", monospace;
}
strong { font-weight: bold; }
em { font-style: italic; }
"#;

/// The content of the first entry of an EPUB container.
pub const MIMETYPE: &'static str = "application/epub+zip";

/// The fixed manifest items: stylesheet, navigation, NCX and title page.
pub const MANIFEST_FIXED: &'static str = "    <item id=\"style\" href=\"style.css\" media-type=\"text/css\" />\n    <item id=\"nav\" href=\"nav.xhtml\" media-type=\"application/xhtml+xml\" properties=\"nav\" />\n    <item id=\"ncx\" href=\"toc.ncx\" media-type=\"application/x-dtbncx+xml\" />\n    <item id=\"title-page\" href=\"title.xhtml\" media-type=\"application/xhtml+xml\" />\n";

/// The link to the title page in the navigation document.
pub const NAV_TITLE_ITEM: &'static str = "      <li><a href=\"title.xhtml\">Title Page</a></li>\n";

/// The spine item of the title page.
pub const SPINE_TITLE_ITEM: &'static str = "    <itemref idref=\"title-page\" />\n";

/// One file of the book: its name in the archive, whether it is stored uncompressed, and
/// its text.
#[derive(Clone, Debug)]
pub struct EpubEntry {
    pub name: String,
    pub stored: bool,
    pub data: String,
}

impl EpubEntry {
    pub open spec fn view(&self) -> (Seq<char>, bool, Seq<char>) {
        (self.name@, self.stored, self.data@)
    }
}

/// The views of a list of entries.
pub open spec fn entry_views(v: Seq<EpubEntry>) -> Seq<(Seq<char>, bool, Seq<char>)> {
    v.map_values(|e: EpubEntry| e.view())
}

/// The texts of the given sequence, one after another.
pub open spec fn concat(s: Seq<Seq<char>>) -> Seq<char>
    decreases s.len(),
{
    if s.len() == 0 {
        Seq::empty()
    } else {
        concat(s.drop_last()) + s.last()
    }
}

/// What the given function makes of each chapter and its number, counted from one.
pub open spec fn numbered(chs: Seq<Chapter>, f: spec_fn(nat, Chapter) -> Seq<char>) -> Seq<char>
    decreases chs.len(),
{
    if chs.len() == 0 {
        Seq::empty()
    } else {
        numbered(chs.drop_last(), f) + f(chs.len(), chs.last())
    }
}

/// The title page.
pub open spec fn title_doc(title: Seq<char>, author: Seq<char>) -> Seq<char> {
    XHTML_HEAD@ + title + TITLE_PAGE_HEADING@ + title + TITLE_PAGE_AUTHOR@ + author
        + TITLE_PAGE_END@
}

/// The document of one chapter, from its escaped title and its XHTML body.
pub open spec fn chapter_doc(title: Seq<char>, body: Seq<char>) -> Seq<char> {
    XHTML_HEAD@ + title + CHAPTER_HEADING@ + title + CHAPTER_BODY@ + body + CHAPTER_END@
}

/// The name of the `n`th chapter document in the archive.
pub open spec fn chapter_entry_name(n: nat) -> Seq<char> {
    "OEBPS/chapter-"@ + decimal(n) + ".xhtml"@
}

/// The link to the `n`th chapter in the navigation document.
pub open spec fn nav_item(n: nat, c: Chapter) -> Seq<char> {
    "      <li><a href=\"chapter-"@ + decimal(n) + ".xhtml\">"@ + escape(Escape::Xml, c.title@)
        + "</a></li>\n"@
}

/// The navigation point of the `n`th chapter in the NCX; the title page plays first.
pub open spec fn ncx_point(n: nat, c: Chapter) -> Seq<char> {
    "    <navPoint id=\"chapter-"@ + decimal(n) + "\" playOrder=\""@ + decimal(n + 1)
        + "\">\n      <navLabel><text>"@ + escape(Escape::Xml, c.title@)
        + "</text></navLabel>\n      <content src=\"chapter-"@ + decimal(n)
        + ".xhtml\" />\n    </navPoint>\n"@
}

/// The manifest item of the `n`th chapter.
pub open spec fn manifest_item(n: nat, c: Chapter) -> Seq<char> {
    "    <item id=\"chapter-"@ + decimal(n) + "\" href=\"chapter-"@ + decimal(n)
        + ".xhtml\" media-type=\"application/xhtml+xml\" />\n"@
}

/// The spine item of the `n`th chapter.
pub open spec fn spine_item(n: nat) -> Seq<char> {
    "    <itemref idref=\"chapter-"@ + decimal(n) + "\" />\n"@
}

/// The spine items of a book of `n` chapters: the title page, then each chapter in order.
pub open spec fn spine_items(n: nat) -> Seq<Seq<char>>
    decreases n,
{
    if n == 0 {
        seq![SPINE_TITLE_ITEM@]
    } else {
        spine_items((n - 1) as nat).push(spine_item(n))
    }
}

/// The navigation document.
pub open spec fn nav_doc(chs: Seq<Chapter>) -> Seq<char> {
    NAV_HEAD@ + NAV_TITLE_ITEM@ + numbered(chs, |n: nat, c: Chapter| nav_item(n, c)) + NAV_END@
}

/// The NCX document.
pub open spec fn ncx_doc(uid: Seq<char>, title: Seq<char>, chs: Seq<Chapter>) -> Seq<char> {
    NCX_HEAD@ + uid + NCX_TITLE@ + title + NCX_MAP@ + NCX_TITLE_POINT@ + numbered(
        chs,
        |n: nat, c: Chapter| ncx_point(n, c),
    ) + NCX_END@
}

/// The package document.
pub open spec fn opf_doc(
    uid: Seq<char>,
    title: Seq<char>,
    author: Seq<char>,
    modified: Seq<char>,
    chs: Seq<Chapter>,
) -> Seq<char> {
    OPF_HEAD@ + uid + OPF_TITLE@ + title + OPF_CREATOR@ + author + OPF_MODIFIED@ + modified
        + OPF_MANIFEST@ + MANIFEST_FIXED@ + numbered(chs, |n: nat, c: Chapter| manifest_item(n, c))
        + OPF_SPINE@ + concat(spine_items(chs.len())) + OPF_END@
}

/// The chapter documents, in order, named by their numbers.
pub open spec fn chapter_entries(chs: Seq<Chapter>) -> Seq<(Seq<char>, bool, Seq<char>)>
    decreases chs.len(),
{
    if chs.len() == 0 {
        Seq::empty()
    } else {
        chapter_entries(chs.drop_last()).push(
            (
                chapter_entry_name(chs.len()),
                false,
                chapter_doc(
                    escape(Escape::Xml, chs.last().title@),
                    render_markup(Escape::Xml, chs.last().content@),
                ),
            ),
        )
    }
}

/// The files of the book in archive order: the stored `mimetype` first, then the container,
/// stylesheet, title page, chapters, navigation, NCX and package documents.
pub open spec fn epub_files(
    m: ProjectMetadata,
    chs: Seq<Chapter>,
    ncx_uid: Seq<char>,
    book_uid: Seq<char>,
    modified: Seq<char>,
) -> Seq<(Seq<char>, bool, Seq<char>)> {
    let title = escape(Escape::Xml, m.title@);
    let author = escape(Escape::Xml, m.author@);
    seq![
        ("mimetype"@, true, MIMETYPE@),
        ("META-INF/container.xml"@, false, CONTAINER_XML@),
        ("OEBPS/style.css"@, false, EPUB_CSS@),
        ("OEBPS/title.xhtml"@, false, title_doc(title, author)),
    ] + chapter_entries(chs) + seq![
        ("OEBPS/nav.xhtml"@, false, nav_doc(chs)),
        ("OEBPS/toc.ncx"@, false, ncx_doc(ncx_uid, title, chs)),
        ("OEBPS/content.opf"@, false, opf_doc(book_uid, title, author, modified, chs)),
    ]
}

/// What an archive writer was given: for each file, its name, whether it is stored
/// uncompressed, and the texts written into it, in order.
pub uninterp spec fn zip_entries(z: ArchiveWriter) -> Seq<(Seq<char>, bool, Seq<Seq<char>>)>;

/// Whether the writer has a file open for writing.
pub uninterp spec fn zip_open(z: ArchiveWriter) -> bool;

/// The bytes of the archive that a fresh writer produces from the given files.
pub uninterp spec fn zip_archive(files: Seq<(Seq<char>, bool, Seq<Seq<char>>)>) -> Seq<u8>;

/// The files of a list of entries, each written in one piece.
pub open spec fn archive_files(es: Seq<(Seq<char>, bool, Seq<char>)>) -> Seq<(Seq<char>, bool, Seq<Seq<char>>)> {
    es.map_values(
        |e: (Seq<char>, bool, Seq<char>)|
            (e.0, e.1, if e.2.len() == 0 {
                Seq::<Seq<char>>::empty()
            } else {
                seq![e.2]
            }),
    )
}

/// The files with `data` written at the end of the last one.
pub open spec fn extend_last(
    files: Seq<(Seq<char>, bool, Seq<Seq<char>>)>,
    data: Seq<char>,
) -> Seq<(Seq<char>, bool, Seq<Seq<char>>)> {
    let e = files.last();
    files.update(files.len() - 1, (e.0, e.1, e.2.push(data)))
}

/// A zip archive being written into memory. Verus refuses a declaration of `ZipWriter`,
/// whose parameter is bound by `Write` and `Seek`, so the writer is held here.
#[verifier::external_body]
pub struct ArchiveWriter {
    inner: ZipWriter<Cursor<Vec<u8>>>,
}

#[verifier::external_type_specification]
#[verifier::external_body]
pub struct ExZipError(ZipError);

#[verifier::external_type_specification]
#[verifier::external_body]
pub struct ExIoError(std::io::Error);

/// Relies on zip's `ZipWriter::new` over an empty in-memory buffer: a writer with no files.
#[verifier::external_body]
fn zip_new() -> (z: ArchiveWriter)
    ensures
        zip_entries(z) == Seq::<(Seq<char>, bool, Seq<Seq<char>>)>::empty(),
        !zip_open(z),
{
    ArchiveWriter { inner: ZipWriter::new(Cursor::new(Vec::new())) }
}

/// Relies on zip's `ZipWriter::start_file` with default options and the compression method
/// `Stored` or `Deflated`. It first closes the open file, if any. On success a new file of that
/// name follows the others and is open; on failure no file is open. Writing into memory, it
/// fails only on a name already used. zip stores the name's byte length in 16 bits and
/// panics beyond that, hence the bound.
#[verifier::external_body]
fn zip_start_file(z: &mut ArchiveWriter, name: &str, stored: bool) -> (r: Result<(), ZipError>)
    requires
        utf8_width(name@) <= 0xFFFF,
    ensures
        r is Ok ==> zip_open(*final(z)) && zip_entries(*final(z)) == zip_entries(*old(z)).push(
            (name@, stored, Seq::<Seq<char>>::empty()),
        ),
        r is Err ==> !zip_open(*final(z)),
        (forall|i: int| 0 <= i < zip_entries(*old(z)).len() ==> (#[trigger] zip_entries(*old(z))[i]).0 != name@)
            ==> r is Ok,
{
    let method = if stored { CompressionMethod::Stored } else { CompressionMethod::Deflated };
    z.inner.start_file(name, SimpleFileOptions::default().compression_method(method))
}

/// Relies on `Write::write_all` of zip's `ZipWriter`, called with data while a file is open:
/// on success the bytes of `data` go into that file, which stays open. Writing into memory,
/// it fails only where a file without the large-file option passes `u32::MAX` bytes, which a
/// first write of at most `0x3FFFFFFF` characters cannot do.
#[verifier::external_body]
fn zip_write(z: &mut ArchiveWriter, data: &str) -> (r: Result<(), std::io::Error>)
    requires
        zip_open(*old(z)),
        zip_entries(*old(z)).len() > 0,
        data@.len() > 0,
    ensures
        r is Ok ==> zip_open(*final(z)) && zip_entries(*final(z)) == extend_last(
            zip_entries(*old(z)),
            data@,
        ),
        zip_entries(*old(z)).last().2.len() == 0 && data@.len() <= 0x3FFFFFFF ==> r is Ok,
{
    z.inner.write_all(data.as_bytes())
}

/// Relies on zip's `ZipWriter::finish`: on success the bytes of the archive of the files given.
/// Without zip's `time` feature every file carries zip's fixed default time, so the bytes
/// depend on the files alone.
#[verifier::external_body]
fn zip_finish(z: ArchiveWriter) -> (r: Result<Vec<u8>, ZipError>)
    ensures
        r is Ok,
        r matches Ok(b) ==> b@ == zip_archive(zip_entries(z)),
{
    z.inner.finish().map(|c| c.into_inner())
}

/// Relies on the `Display` text of zip's `ZipError`.
#[verifier::external_body]
fn zip_error_text(e: &ZipError) -> (r: String) {
    e.to_string()
}

/// Relies on the `Display` text of `std::io::Error`.
#[verifier::external_body]
fn io_error_text(e: &std::io::Error) -> (r: String) {
    e.to_string()
}

/// Whether no two files have the same name.
pub open spec fn distinct_names(es: Seq<(Seq<char>, bool, Seq<char>)>) -> bool {
    forall|i: int, j: int| 0 <= i < j < es.len() ==> (#[trigger] es[i]).0 != (#[trigger] es[j]).0
}

/// Whether every file fits the archive: a name of at most 65,535 bytes, and a text small
/// enough to be written without the large-file option.
pub open spec fn fits_archive(es: Seq<(Seq<char>, bool, Seq<char>)>) -> bool {
    forall|i: int|
        0 <= i < es.len() ==> (#[trigger] es[i]).2.len() <= 0x3FFFFFFF && utf8_width(es[i].0)
            <= 0xFFFF
}

/// Writes the entries, in order, into a fresh archive. This succeeds where the names are
/// distinct and every file fits.
pub fn package(entries: &Vec<EpubEntry>) -> (r: Result<Vec<u8>, ProjectError>)
    ensures
        distinct_names(entry_views(entries@)) && fits_archive(entry_views(entries@)) ==> r is Ok,
        r matches Ok(b) ==> b@ == zip_archive(archive_files(entry_views(entries@))),
        r matches Err(e) ==> e is Io,
{
    let mut z = zip_new();
    let mut i: usize = 0;
    while i < entries.len()
        invariant
            i <= entries@.len(),
            zip_entries(z) == archive_files(entry_views(entries@).take(i as int)),
        decreases entries@.len() - i,
    {
        let e = &entries[i];
        proof {
            let es = entry_views(entries@);
            assert(es[i as int] == e.view());
            if distinct_names(es) {
                assert forall|k: int| 0 <= k < zip_entries(z).len() implies (#[trigger] zip_entries(z)[k]).0 != e.name@ by {
                    assert(zip_entries(z)[k].0 == es[k].0);
                }
            }
            if fits_archive(es) {
                assert(es[i as int].2.len() <= 0x3FFFFFFF);
            }
        }
        let name_chars = to_chars(e.name.as_str());
        if width_of(&name_chars) > 0xFFFF {
            proof {
                assert(!fits_archive(entry_views(entries@))) by {
                    assert(entry_views(entries@)[i as int] == e.view());
                }
            }
            return Err(ProjectError::Io(string_of(&to_chars("file name too long"))));
        }
        match zip_start_file(&mut z, e.name.as_str(), e.stored) {
            Ok(()) => {},
            Err(err) => {
                return Err(ProjectError::Io(zip_error_text(&err)));
            },
        }
        if !e.data.as_str().is_empty() {
            match zip_write(&mut z, e.data.as_str()) {
                Ok(()) => {},
                Err(err) => {
                    return Err(ProjectError::Io(io_error_text(&err)));
                },
            }
        }
        let ghost pre = entry_views(entries@).take(i as int);
        i = i + 1;
        assert(entry_views(entries@).take(i as int) =~= pre.push(e.view()));
        assert(zip_entries(z) =~= archive_files(entry_views(entries@).take(i as int)));
    }
    assert(entry_views(entries@).take(entries@.len() as int) =~= entry_views(entries@));
    match zip_finish(z) {
        Ok(b) => Ok(b),
        Err(err) => Err(ProjectError::Io(zip_error_text(&err))),
    }
}

/// A new entry from characters.
fn entry(name: &str, stored: bool, data: &Vec<char>) -> (r: EpubEntry)
    ensures
        r.view() == (name@, stored, data@),
{
    EpubEntry { name: name.to_string(), stored, data: string_of(data) }
}

/// The title page.
fn title_page(title: &Vec<char>, author: &Vec<char>) -> (r: Vec<char>)
    ensures
        r@ == title_doc(title@, author@),
{
    let mut out: Vec<char> = Vec::new();
    push_str(&mut out, XHTML_HEAD);
    push_chars(&mut out, title);
    push_str(&mut out, TITLE_PAGE_HEADING);
    push_chars(&mut out, title);
    push_str(&mut out, TITLE_PAGE_AUTHOR);
    push_chars(&mut out, author);
    push_str(&mut out, TITLE_PAGE_END);
    out
}

/// The document of one chapter.
fn chapter_page(c: &Chapter) -> (r: Vec<char>)
    ensures
        r@ == chapter_doc(escape(Escape::Xml, c.title@), render_markup(Escape::Xml, c.content@)),
{
    let tv = to_chars(c.title.as_str());
    let title = escape_chars(Escape::Xml, &tv);
    let cv = to_chars(c.content.as_str());
    let body = render_markup_chars(Escape::Xml, &cv);
    let mut out: Vec<char> = Vec::new();
    push_str(&mut out, XHTML_HEAD);
    push_chars(&mut out, &title);
    push_str(&mut out, CHAPTER_HEADING);
    push_chars(&mut out, &title);
    push_str(&mut out, CHAPTER_BODY);
    push_chars(&mut out, &body);
    push_str(&mut out, CHAPTER_END);
    out
}

/// The name of the `n`th chapter document.
fn chapter_name(n: u128) -> (r: String)
    ensures
        r@ == chapter_entry_name(n as nat),
{
    let mut out: Vec<char> = Vec::new();
    push_str(&mut out, "OEBPS/chapter-");
    push_decimal(&mut out, n);
    push_str(&mut out, ".xhtml");
    string_of(&out)
}

/// Appends the per-chapter piece of the given kind for chapter number `n`: 0 a navigation
/// link, 1 an NCX point, 2 a manifest item.
fn push_numbered(out: &mut Vec<char>, kind: u8, n: u128, c: &Chapter)
    requires
        kind < 3,
        n < u128::MAX,
    ensures
        kind == 0 ==> final(out)@ == old(out)@ + nav_item(n as nat, *c),
        kind == 1 ==> final(out)@ == old(out)@ + ncx_point(n as nat, *c),
        kind == 2 ==> final(out)@ == old(out)@ + manifest_item(n as nat, *c),
{
    let ghost start = out@;
    if kind == 2 {
        push_str(out, "    <item id=\"chapter-");
        push_decimal(out, n);
        push_str(out, "\" href=\"chapter-");
        push_decimal(out, n);
        push_str(out, ".xhtml\" media-type=\"application/xhtml+xml\" />\n");
        assert(out@ =~= start + manifest_item(n as nat, *c));
        return;
    }
    let tv = to_chars(c.title.as_str());
    let title = escape_chars(Escape::Xml, &tv);
    if kind == 0 {
        push_str(out, "      <li><a href=\"chapter-");
        push_decimal(out, n);
        push_str(out, ".xhtml\">");
        push_chars(out, &title);
        push_str(out, "</a></li>\n");
        assert(out@ =~= start + nav_item(n as nat, *c));
    } else {
        push_str(out, "    <navPoint id=\"chapter-");
        push_decimal(out, n);
        push_str(out, "\" playOrder=\"");
        push_decimal(out, n + 1);
        push_str(out, "\">\n      <navLabel><text>");
        push_chars(out, &title);
        push_str(out, "</text></navLabel>\n      <content src=\"chapter-");
        push_decimal(out, n);
        push_str(out, ".xhtml\" />\n    </navPoint>\n");
        assert(out@ =~= start + ncx_point(n as nat, *c));
    }
}

/// The pieces of the given kind for every chapter, in order.
fn numbered_pieces(chs: &Vec<Chapter>, kind: u8) -> (r: Vec<char>)
    requires
        kind < 3,
    ensures
        kind == 0 ==> r@ == numbered(chs@, |n: nat, c: Chapter| nav_item(n, c)),
        kind == 1 ==> r@ == numbered(chs@, |n: nat, c: Chapter| ncx_point(n, c)),
        kind == 2 ==> r@ == numbered(chs@, |n: nat, c: Chapter| manifest_item(n, c)),
{
    let mut out: Vec<char> = Vec::new();
    let mut i: usize = 0;
    while i < chs.len()
        invariant
            i <= chs@.len(),
            kind < 3,
            kind == 0 ==> out@ == numbered(chs@.take(i as int), |n: nat, c: Chapter| nav_item(n, c)),
            kind == 1 ==> out@ == numbered(chs@.take(i as int), |n: nat, c: Chapter| ncx_point(n, c)),
            kind == 2 ==> out@ == numbered(chs@.take(i as int), |n: nat, c: Chapter| manifest_item(n, c)),
        decreases chs@.len() - i,
    {
        let n: u128 = i as u128 + 1;
        push_numbered(&mut out, kind, n, &chs[i]);
        let ghost pre = chs@.take(i as int);
        i = i + 1;
        assert(chs@.take(i as int).drop_last() =~= pre);
        assert(chs@.take(i as int).len() == n);
    }
    assert(chs@.take(chs@.len() as int) =~= chs@);
    out
}

/// The spine items of a book of `n` chapters, one after another.
fn spine(n: usize) -> (r: Vec<char>)
    ensures
        r@ == concat(spine_items(n as nat)),
{
    let mut out: Vec<char> = Vec::new();
    push_str(&mut out, SPINE_TITLE_ITEM);
    assert(spine_items(0) =~= seq![SPINE_TITLE_ITEM@]);
    assert(spine_items(0).drop_last() =~= Seq::<Seq<char>>::empty());
    assert(concat(Seq::<Seq<char>>::empty()) =~= Seq::<char>::empty());
    assert(out@ =~= concat(spine_items(0)));
    let mut i: usize = 0;
    while i < n
        invariant
            i <= n,
            out@ == concat(spine_items(i as nat)),
        decreases n - i,
    {
        let ghost before = out@;
        push_str(&mut out, "    <itemref idref=\"chapter-");
        push_decimal(&mut out, i as u128 + 1);
        push_str(&mut out, "\" />\n");
        i = i + 1;
        assert(spine_items(i as nat).drop_last() =~= spine_items((i - 1) as nat));
        assert(out@ =~= before + spine_item(i as nat));
    }
    out
}

/// The navigation document.
fn nav_document(chapters: &Vec<Chapter>) -> (r: Vec<char>)
    ensures
        r@ == nav_doc(chapters@),
{
    let items = numbered_pieces(chapters, 0);
    let mut nav: Vec<char> = Vec::new();
    push_str(&mut nav, NAV_HEAD);
    push_str(&mut nav, NAV_TITLE_ITEM);
    push_chars(&mut nav, &items);
    push_str(&mut nav, NAV_END);
    assert(nav@ =~= nav_doc(chapters@));
    nav
}

/// The NCX document.
fn ncx_document(chapters: &Vec<Chapter>, ncx_uid: &str, title: &Vec<char>) -> (r: Vec<char>)
    ensures
        r@ == ncx_doc(ncx_uid@, title@, chapters@),
{
    let points = numbered_pieces(chapters, 1);
    let mut ncx: Vec<char> = Vec::new();
    push_str(&mut ncx, NCX_HEAD);
    push_str(&mut ncx, ncx_uid);
    push_str(&mut ncx, NCX_TITLE);
    push_chars(&mut ncx, title);
    push_str(&mut ncx, NCX_MAP);
    push_str(&mut ncx, NCX_TITLE_POINT);
    push_chars(&mut ncx, &points);
    push_str(&mut ncx, NCX_END);
    assert(ncx@ =~= ncx_doc(ncx_uid@, title@, chapters@));
    ncx
}

/// The package document.
fn opf_document(
    chapters: &Vec<Chapter>,
    book_uid: &str,
    title: &Vec<char>,
    author: &Vec<char>,
    modified: &str,
) -> (r: Vec<char>)
    ensures
        r@ == opf_doc(book_uid@, title@, author@, modified@, chapters@),
{
    let manifest = numbered_pieces(chapters, 2);
    let spine_text = spine(chapters.len());
    let mut opf: Vec<char> = Vec::new();
    push_str(&mut opf, OPF_HEAD);
    push_str(&mut opf, book_uid);
    push_str(&mut opf, OPF_TITLE);
    push_chars(&mut opf, title);
    push_str(&mut opf, OPF_CREATOR);
    push_chars(&mut opf, author);
    push_str(&mut opf, OPF_MODIFIED);
    push_str(&mut opf, modified);
    push_str(&mut opf, OPF_MANIFEST);
    push_str(&mut opf, MANIFEST_FIXED);
    push_chars(&mut opf, &manifest);
    push_str(&mut opf, OPF_SPINE);
    push_chars(&mut opf, &spine_text);
    push_str(&mut opf, OPF_END);
    assert(opf@ =~= opf_doc(book_uid@, title@, author@, modified@, chapters@));
    opf
}

/// Appends the chapter documents, in order.
fn push_chapter_entries(es: &mut Vec<EpubEntry>, chapters: &Vec<Chapter>)
    ensures
        entry_views(final(es)@) == entry_views(old(es)@) + chapter_entries(chapters@),
{
    let ghost head = entry_views(es@);
    let mut i: usize = 0;
    assert(chapter_entries(chapters@.take(0)) =~= Seq::<(Seq<char>, bool, Seq<char>)>::empty());
    while i < chapters.len()
        invariant
            i <= chapters@.len(),
            entry_views(es@) == head + chapter_entries(chapters@.take(i as int)),
        decreases chapters@.len() - i,
    {
        let page = chapter_page(&chapters[i]);
        let name = chapter_name(i as u128 + 1);
        let e = EpubEntry { name, stored: false, data: string_of(&page) };
        let ghost before = entry_views(es@);
        es.push(e);
        let ghost pre = chapters@.take(i as int);
        i = i + 1;
        assert(chapters@.take(i as int).drop_last() =~= pre);
        assert(entry_views(es@) =~= before.push(e.view()));
    }
    assert(chapters@.take(chapters@.len() as int) =~= chapters@);
}

/// The files of the book, from its metadata, its chapters in reading order, the two
/// identifiers and the modification time.
pub fn epub_entries(
    metadata: &ProjectMetadata,
    chapters: &Vec<Chapter>,
    ncx_uid: &str,
    book_uid: &str,
    modified: &str,
) -> (r: Vec<EpubEntry>)
    ensures
        entry_views(r@) == epub_files(*metadata, chapters@, ncx_uid@, book_uid@, modified@),
{
    let tv = to_chars(metadata.title.as_str());
    let title = escape_chars(Escape::Xml, &tv);
    let av = to_chars(metadata.author.as_str());
    let author = escape_chars(Escape::Xml, &av);
    let mut es: Vec<EpubEntry> = Vec::new();
    let mime = to_chars(MIMETYPE);
    es.push(entry("mimetype", true, &mime));
    let container = to_chars(CONTAINER_XML);
    es.push(entry("META-INF/container.xml", false, &container));
    let css = to_chars(EPUB_CSS);
    es.push(entry("OEBPS/style.css", false, &css));
    let tp = title_page(&title, &author);
    es.push(entry("OEBPS/title.xhtml", false, &tp));
    let ghost head = entry_views(es@);
    assert(head =~= seq![
        ("mimetype"@, true, MIMETYPE@),
        ("META-INF/container.xml"@, false, CONTAINER_XML@),
        ("OEBPS/style.css"@, false, EPUB_CSS@),
        ("OEBPS/title.xhtml"@, false, title_doc(title@, author@)),
    ]);
    push_chapter_entries(&mut es, chapters);
    let ghost body = entry_views(es@);
    let nav = nav_document(chapters);
    es.push(entry("OEBPS/nav.xhtml", false, &nav));
    let ncx = ncx_document(chapters, ncx_uid, &title);
    es.push(entry("OEBPS/toc.ncx", false, &ncx));
    let opf = opf_document(chapters, book_uid, &title, &author, modified);
    es.push(entry("OEBPS/content.opf", false, &opf));
    assert(entry_views(es@) =~= body + seq![
        ("OEBPS/nav.xhtml"@, false, nav_doc(chapters@)),
        ("OEBPS/toc.ncx"@, false, ncx_doc(ncx_uid@, title@, chapters@)),
        ("OEBPS/content.opf"@, false, opf_doc(book_uid@, title@, author@, modified@, chapters@)),
    ]);
    assert(entry_views(es@) =~= epub_files(*metadata, chapters@, ncx_uid@, book_uid@, modified@));
    es
}

/// What an export that drew the identifiers `ncx_uid` and `book_uid` and the time `secs`,
/// `nanos` gives: the identifiers are UUIDs and the time text is short; where every file
/// fits the export succeeds, and what it gives is the archive of the files of `epub_files`.
pub open spec fn epub_outcome(
    m: ProjectMetadata,
    chs: Seq<Chapter>,
    ncx_uid: Seq<char>,
    book_uid: Seq<char>,
    secs: i64,
    nanos: u32,
    r: Result<Vec<u8>, ProjectError>,
) -> bool {
    let files = epub_files(m, chs, ncx_uid, book_uid, utc_seconds_text(secs, nanos));
    &&& uuid_text(ncx_uid)
    &&& uuid_text(book_uid)
    &&& utc_seconds_text(secs, nanos).len() <= 32
    &&& fits_archive(files) ==> r is Ok
    &&& r matches Ok(b) ==> b@ == zip_archive(archive_files(files))
}

/// The book as an EPUB 3 archive. Its two identifiers are fresh random UUIDs and its
/// modification time is the current time; whatever they are, the files are those of
/// `epub_files`, and the archive is written whenever every file fits.
pub fn export_epub(metadata: &ProjectMetadata, chapters: &Vec<Chapter>) -> (r: Result<
    Vec<u8>,
    ProjectError,
>)
    ensures
        exists|ncx_uid: Seq<char>, book_uid: Seq<char>, secs: i64, nanos: u32|
            #[trigger] epub_outcome(*metadata, chapters@, ncx_uid, book_uid, secs, nanos, r),
        r matches Err(e) ==> e is Io,
{
    let ncx_uid = new_id();
    let book_uid = new_id();
    let at = now();
    let modified = format_utc_seconds(at);
    let entries = epub_entries(metadata, chapters, ncx_uid.as_str(), book_uid.as_str(), modified.as_str());
    proof {
        lemma_epub_layout(*metadata, chapters@, ncx_uid@, book_uid@, modified@);
    }
    let r = package(&entries);
    assert(epub_outcome(*metadata, chapters@, ncx_uid@, book_uid@, at.secs, at.nanos, r));
    r
}

proof fn lemma_decimal_shape(n: nat)
    ensures
        decimal(n).len() >= 1,
        n < 10 <==> decimal(n).len() == 1,
        decimal(n).last() == digit(n % 10),
    decreases n,
{
    if n >= 10 {
        lemma_decimal_shape(n / 10);
    }
}

proof fn lemma_decimal_injective(a: nat, b: nat)
    requires
        decimal(a) == decimal(b),
    ensures
        a == b,
    decreases a,
{
    lemma_decimal_shape(a);
    lemma_decimal_shape(b);
    if a >= 10 {
        assert(decimal(a).drop_last() =~= decimal(a / 10));
        assert(decimal(b).drop_last() =~= decimal(b / 10));
        lemma_decimal_injective(a / 10, b / 10);
    }
}

proof fn lemma_chapter_names_distinct(a: nat, b: nat)
    requires
        chapter_entry_name(a) == chapter_entry_name(b),
    ensures
        a == b,
{
    let p = "OEBPS/chapter-"@;
    let q = ".xhtml"@;
    let na = chapter_entry_name(a);
    let nb = chapter_entry_name(b);
    assert(na.subrange(p.len() as int, na.len() - q.len()) =~= decimal(a));
    assert(nb.subrange(p.len() as int, nb.len() - q.len()) =~= decimal(b));
    lemma_decimal_injective(a, b);
}

proof fn lemma_chapter_entries(chs: Seq<Chapter>)
    ensures
        chapter_entries(chs).len() == chs.len(),
        forall|i: int|
            0 <= i < chs.len() ==> (#[trigger] chapter_entries(chs)[i]).0 == chapter_entry_name(
                (i + 1) as nat,
            ) && !chapter_entries(chs)[i].1,
    decreases chs.len(),
{
    if chs.len() > 0 {
        lemma_chapter_entries(chs.drop_last());
        let prev = chapter_entries(chs.drop_last());
        assert forall|i: int| 0 <= i < chs.len() implies (#[trigger] chapter_entries(chs)[i]).0
            == chapter_entry_name((i + 1) as nat) && !chapter_entries(chs)[i].1 by {
            if i < chs.len() - 1 {
                assert(chapter_entries(chs)[i] == prev[i]);
            }
        }
    }
}

proof fn lemma_spine_len(n: nat)
    ensures
        spine_items(n).len() == n + 1,
    decreases n,
{
    if n > 0 {
        lemma_spine_len((n - 1) as nat);
    }
}

/// Whether `name` is the name of some chapter document.
pub open spec fn is_chapter_name(name: Seq<char>) -> bool {
    exists|k: nat| name == chapter_entry_name(k)
}

/// The layout of the archive: the first file is `mimetype`, stored uncompressed, holding
/// exactly `application/epub+zip`, and it is the only stored one; chapter `N` of the given
/// chapters is the file `OEBPS/chapter-N.xhtml`, N counted from one in reading order, no
/// other file bears such a name, and no two files share a name; the spine lists one item more
/// than there are chapters.
pub proof fn lemma_epub_layout(
    m: ProjectMetadata,
    chs: Seq<Chapter>,
    ncx_uid: Seq<char>,
    book_uid: Seq<char>,
    modified: Seq<char>,
)
    ensures
        ({
            let f = epub_files(m, chs, ncx_uid, book_uid, modified);
            &&& f.len() == chs.len() + 7
            &&& f[0] == ("mimetype"@, true, MIMETYPE@)
            &&& forall|j: int| 0 < j < f.len() ==> !(#[trigger] f[j]).1
            &&& forall|i: int| 0 <= i < chs.len() ==> (#[trigger] f[4 + i]).0 == chapter_entry_name((i + 1) as nat)
            &&& forall|j: int| 0 <= j < f.len() && is_chapter_name((#[trigger] f[j]).0) ==> 4 <= j < 4 + chs.len()
            &&& distinct_names(f)
            &&& f[f.len() - 1].0 == "OEBPS/content.opf"@
            &&& f[f.len() - 1].2 == opf_doc(
                book_uid,
                escape(Escape::Xml, m.title@),
                escape(Escape::Xml, m.author@),
                modified,
                chs,
            )
            &&& spine_items(chs.len()).len() == chs.len() + 1
        }),
{
    let f = epub_files(m, chs, ncx_uid, book_uid, modified);
    let n = chs.len();
    lemma_chapter_entries(chs);
    lemma_spine_len(n);
    let ce = chapter_entries(chs);
    assert(forall|i: int| 0 <= i < n ==> f[4 + i] == ce[i]);
    reveal_strlit("OEBPS/chapter-");
    reveal_strlit(".xhtml");
    reveal_strlit("mimetype");
    reveal_strlit("META-INF/container.xml");
    reveal_strlit("OEBPS/style.css");
    reveal_strlit("OEBPS/title.xhtml");
    reveal_strlit("OEBPS/nav.xhtml");
    reveal_strlit("OEBPS/toc.ncx");
    reveal_strlit("OEBPS/content.opf");
    assert forall|j: int| 0 <= j < f.len() && is_chapter_name((#[trigger] f[j]).0) implies 4 <= j < 4 + n by {
        let k = choose|k: nat| f[j].0 == chapter_entry_name(k);
        let c = chapter_entry_name(k);
        assert(c[6] == 'c' && c[7] == 'h');
        if j < 4 || j >= 4 + n {
            assert(f[j].0[6] != 'c' || f[j].0[7] != 'h');
        }
    }
    let names = seq![
        "mimetype"@,
        "META-INF/container.xml"@,
        "OEBPS/style.css"@,
        "OEBPS/title.xhtml"@,
        "OEBPS/nav.xhtml"@,
        "OEBPS/toc.ncx"@,
        "OEBPS/content.opf"@,
    ];
    assert(names[2][6] != names[4][6]);
    assert(names[3][6] != names[6][6]);
    assert(names[0].len() == 8 && names[1].len() == 22 && names[2].len() == 15);
    assert(names[3].len() == 17 && names[4].len() == 15 && names[5].len() == 13);
    assert(names[6].len() == 17);
    assert forall|a: int, b: int| 0 <= a < b < 7 implies names[a] != names[b] by {
        if a == 2 && b == 4 {
            assert(names[2][6] != names[4][6]);
        } else if a == 3 && b == 6 {
            assert(names[3][6] != names[6][6]);
        }
    }
    assert forall|j: int| 0 <= j < f.len() && !(4 <= j < 4 + n) implies (#[trigger] f[j]).0 == names[
        if j < 4 { j } else { j - n }] by {}
    assert forall|i: int, j: int| 0 <= i < j < f.len() implies (#[trigger] f[i]).0 != (#[trigger] f[j]).0 by {
        if f[i].0 == f[j].0 {
            if 4 <= j < 4 + n {
                assert(is_chapter_name(f[j].0));
                assert(is_chapter_name(f[i].0));
                assert(4 <= i < 4 + n);
                lemma_chapter_names_distinct((i - 3) as nat, (j - 3) as nat);
            } else if 4 <= i < 4 + n {
                assert(is_chapter_name(f[i].0));
                assert(is_chapter_name(f[j].0));
            }
        }
    }
}

} // verus!
