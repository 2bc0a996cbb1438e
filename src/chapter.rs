use vstd::prelude::*;

use crate::inline::{occurs, occurs_at};
use crate::text::{
    count_word_chars, lines, push_chars, push_decimal, push_str, slice_chars, split_lines,
    string_of, to_chars, trim, trim_chars, views, word_count, decimal, split_lf, is_ws_spec,
    trim_start, trim_end,
};
use crate::time::{format_rfc3339, now, parse_rfc3339, rfc3339_instant, rfc3339_plain, rfc3339_text, Timestamp};

verus! {

/// One chapter: its text and the metadata kept in its file's frontmatter.
#[derive(Clone, Debug)]
pub struct Chapter {
    pub id: String,
    pub title: String,
    pub content: String,
    pub status: String,
    pub mood: Option<String>,
    pub pov: Option<String>,
    pub word_count: u64,
    pub created_at: Timestamp,
    pub modified_at: Timestamp,
}

/// The failure of reading a chapter file.
#[derive(Clone, Debug)]
pub enum ChapterError {
    Io(String),
}

impl ChapterError {
    /// The message that describes the error.
    pub fn message(&self) -> (r: String)
        ensures
            self matches ChapterError::Io(m) ==> r@ == "IO error: "@ + m@,
    {
        match self {
            ChapterError::Io(m) => {
                let mut s = String::from_str("IO error: ");
                s.append(m.as_str());
                s
            },
        }
    }
}

/// The character sequence of an optional string.
pub open spec fn opt_view(o: Option<String>) -> Option<Seq<char>> {
    match o {
        Some(s) => Some(s@),
        None => None,
    }
}

/// The frontmatter delimiter.
pub open spec fn delimiter() -> Seq<char> {
    seq!['-', '-', '-']
}

/// The first position at or after `i` where `d` occurs in `t`.
pub open spec fn first_occurrence(t: Seq<char>, d: Seq<char>, i: int) -> Option<int>
    decreases t.len() + 1 - i,
{
    if i < 0 || i + d.len() > t.len() {
        None
    } else if occurs_at(t, i, d) {
        Some(i)
    } else {
        first_occurrence(t, d, i + 1)
    }
}

/// The text without the `"` characters at its start.
pub open spec fn strip_quotes_start(t: Seq<char>) -> Seq<char>
    decreases t.len(),
{
    if t.len() > 0 && t[0] == '"' {
        strip_quotes_start(t.skip(1))
    } else {
        t
    }
}

/// The text without the `"` characters at its end.
pub open spec fn strip_quotes_end(t: Seq<char>) -> Seq<char>
    decreases t.len(),
{
    if t.len() > 0 && t.last() == '"' {
        strip_quotes_end(t.drop_last())
    } else {
        t
    }
}

/// The text without the `"` characters at either end.
pub open spec fn unquote(t: Seq<char>) -> Seq<char> {
    strip_quotes_end(strip_quotes_start(t))
}

/// What the frontmatter says of a chapter.
pub struct FrontMatter {
    pub title: Seq<char>,
    pub status: Seq<char>,
    pub mood: Option<Seq<char>>,
    pub pov: Option<Seq<char>>,
    pub created: Option<(i64, u32)>,
    pub modified: Option<(i64, u32)>,
}

/// What an empty frontmatter says.
pub open spec fn default_front_matter() -> FrontMatter {
    FrontMatter {
        title: "Untitled"@,
        status: "draft"@,
        mood: None,
        pov: None,
        created: None,
        modified: None,
    }
}

/// The frontmatter after one more `key: value` line; the key and value are trimmed, the
/// value loses its quotes, and unknown keys, `id` among them, change nothing.
pub open spec fn apply_line(fm: FrontMatter, line: Seq<char>) -> FrontMatter {
    let l = trim(line);
    match first_occurrence(l, seq![':'], 0) {
        None => fm,
        Some(p) => {
            let key = trim(l.take(p));
            let value = unquote(trim(l.skip(p + 1)));
            if key == "title"@ {
                FrontMatter { title: value, ..fm }
            } else if key == "status"@ {
                FrontMatter { status: value, ..fm }
            } else if key == "mood"@ {
                FrontMatter { mood: Some(value), ..fm }
            } else if key == "pov"@ {
                FrontMatter { pov: Some(value), ..fm }
            } else if key == "created_at"@ && rfc3339_instant(value) is Some {
                FrontMatter { created: rfc3339_instant(value), ..fm }
            } else if key == "modified_at"@ && rfc3339_instant(value) is Some {
                FrontMatter { modified: rfc3339_instant(value), ..fm }
            } else {
                fm
            }
        },
    }
}

/// The frontmatter after the given lines.
pub open spec fn parse_lines(ls: Seq<Seq<char>>) -> FrontMatter
    decreases ls.len(),
{
    if ls.len() == 0 {
        default_front_matter()
    } else {
        apply_line(parse_lines(ls.drop_last()), ls.last())
    }
}

/// What a frontmatter block says.
pub open spec fn parse_front_matter(block: Seq<char>) -> FrontMatter {
    parse_lines(lines(trim(block)))
}

/// Whether a chapter file's text begins with the frontmatter delimiter.
pub open spec fn starts_with_delimiter(raw: Seq<char>) -> bool {
    raw.len() >= 3 && raw.take(3) == delimiter()
}

/// Where the frontmatter of a text that begins with the delimiter ends, if it does.
pub open spec fn closing_delimiter(raw: Seq<char>) -> Option<int> {
    first_occurrence(raw, delimiter(), 3)
}

/// One `key: "value"` line of the frontmatter.
pub open spec fn quoted_line(key: Seq<char>, value: Seq<char>) -> Seq<char> {
    key + ": \""@ + value + "\"\n"@
}

/// An optional `key: "value"` line.
pub open spec fn optional_line(key: Seq<char>, value: Option<Seq<char>>) -> Seq<char> {
    match value {
        Some(v) => quoted_line(key, v),
        None => Seq::empty(),
    }
}

/// The lines of a chapter's frontmatter, between the two delimiters.
pub open spec fn front_matter_block(c: Chapter) -> Seq<char> {
    quoted_line("id"@, c.id@) + quoted_line("title"@, c.title@) + quoted_line(
        "status"@,
        c.status@,
    ) + optional_line("mood"@, opt_view(c.mood)) + optional_line("pov"@, opt_view(c.pov))
        + ("word_count: "@ + decimal(c.word_count as nat) + seq!['\n']) + quoted_line(
        "created_at"@,
        rfc3339_text(c.created_at.secs, c.created_at.nanos),
    ) + quoted_line("modified_at"@, rfc3339_text(c.modified_at.secs, c.modified_at.nanos))
}

/// The text of a chapter's file: the frontmatter between delimiters, a blank line, the body.
pub open spec fn chapter_text(c: Chapter) -> Seq<char> {
    "---\n"@ + front_matter_block(c) + "---\n\n"@ + c.content@
}

/// The text without one line ending at its start, `\r\n` or `\n`, if it has one.
pub open spec fn skip_line_end(t: Seq<char>) -> Seq<char> {
    if t.len() >= 2 && t[0] == '\r' && t[1] == '\n' {
        t.skip(2)
    } else if t.len() >= 1 && t[0] == '\n' {
        t.skip(1)
    } else {
        t
    }
}

/// The body after the closing delimiter: without the end of the delimiter's line and the
/// blank line that follows it, and otherwise exactly as written.
pub open spec fn body_after(rest: Seq<char>) -> Seq<char> {
    skip_line_end(skip_line_end(rest))
}

/// The text of a file stem, or `fallback` where there is none.
pub open spec fn stem_or(stem: Option<&str>, fallback: Seq<char>) -> Seq<char> {
    match stem {
        Some(s) => s@,
        None => fallback,
    }
}

/// The number of whitespace-separated words of `text`.
pub fn count_words(text: &str) -> (r: usize)
    ensures
        r == word_count(text@),
{
    let t = to_chars(text);
    count_word_chars(&t)
}

/// Whether `c` is a lowercase hexadecimal digit.
pub open spec fn is_lower_hex(c: char) -> bool {
    ('0' <= c && c <= '9') || ('a' <= c && c <= 'f')
}

/// Whether a text is a UUID in hyphenated lowercase form: 36 characters, hyphens at 8, 13,
/// 18 and 23, hexadecimal digits elsewhere.
pub open spec fn uuid_text(s: Seq<char>) -> bool {
    &&& s.len() == 36
    &&& forall|i: int|
        0 <= i < 36 ==> if i == 8 || i == 13 || i == 18 || i == 23 {
            s[i] == '-'
        } else {
            is_lower_hex(#[trigger] s[i])
        }
}

/// Relies on uuid's `Uuid::new_v4` and its `Display` text, the hyphenated lowercase form: a
/// fresh random identifier, of which only the form is known.
#[verifier::external_body]
pub(crate) fn new_id() -> (r: String)
    ensures
        uuid_text(r@),
{
    uuid::Uuid::new_v4().to_string()
}

/// Whether `v` holds exactly the characters of `s`.
pub fn eq_str(v: &Vec<char>, s: &str) -> (r: bool)
    ensures
        r == (v@ == s@),
{
    let w = to_chars(s);
    if v.len() != w.len() {
        return false;
    }
    let mut i: usize = 0;
    while i < v.len()
        invariant
            i <= v@.len(),
            w@ == s@,
            v@.len() == w@.len(),
            forall|j: int| 0 <= j < i ==> v@[j] == w@[j],
        decreases v@.len() - i,
    {
        if v[i] != w[i] {
            assert(v@[i as int] != w@[i as int]);
            return false;
        }
        i = i + 1;
    }
    assert(v@ =~= w@);
    true
}

/// The first position at or after `i` where `d` occurs in `t`.
fn find_from(t: &Vec<char>, d: &Vec<char>, i: usize) -> (r: Option<usize>)
    requires
        i <= t@.len(),
    ensures
        r matches Some(k) ==> first_occurrence(t@, d@, i as int) == Some(k as int),
        r is None ==> first_occurrence(t@, d@, i as int) is None,
        r matches Some(k) ==> (i <= k && k + d@.len() <= t@.len()),
{
    if d.len() == 0 {
        assert(occurs_at(t@, i as int, d@)) by {
            assert(t@.subrange(i as int, i as int) =~= d@);
        }
        return Some(i);
    }
    let mut k: usize = i;
    while d.len() <= t.len() - k
        invariant
            i <= k,
            k <= t@.len(),
            d@.len() > 0,
            first_occurrence(t@, d@, i as int) == first_occurrence(t@, d@, k as int),
        decreases t@.len() - k,
    {
        if occurs(t, k, d) {
            return Some(k);
        }
        k = k + 1;
    }
    None
}

/// `t` without the `"` characters at either end.
fn unquote_chars(t: &Vec<char>) -> (r: Vec<char>)
    ensures
        r@ == unquote(t@),
{
    let n = t.len();
    let mut lo: usize = 0;
    assert(t@.subrange(0, n as int) == t@);
    while lo < n && t[lo] == '"'
        invariant
            lo <= n == t@.len(),
            strip_quotes_start(t@) == strip_quotes_start(t@.subrange(lo as int, n as int)),
        decreases n - lo,
    {
        assert(t@.subrange(lo as int, n as int).skip(1) == t@.subrange(lo + 1, n as int));
        lo = lo + 1;
    }
    let mut hi: usize = n;
    while hi > lo && t[hi - 1] == '"'
        invariant
            lo <= hi <= n == t@.len(),
            unquote(t@) == strip_quotes_end(t@.subrange(lo as int, hi as int)),
        decreases hi,
    {
        assert(t@.subrange(lo as int, hi as int).drop_last() == t@.subrange(lo as int, hi - 1));
        hi = hi - 1;
    }
    slice_chars(t, lo, hi)
}

/// The frontmatter fields being read.
struct Fields {
    title: Vec<char>,
    status: Vec<char>,
    mood: Option<Vec<char>>,
    pov: Option<Vec<char>>,
    created: Option<Timestamp>,
    modified: Option<Timestamp>,
}

spec fn opt_chars(o: Option<Vec<char>>) -> Option<Seq<char>> {
    match o {
        Some(v) => Some(v@),
        None => None,
    }
}

spec fn opt_instant(o: Option<Timestamp>) -> Option<(i64, u32)> {
    match o {
        Some(t) => Some((t.secs, t.nanos)),
        None => None,
    }
}

impl Fields {
    spec fn front_matter(&self) -> FrontMatter {
        FrontMatter {
            title: self.title@,
            status: self.status@,
            mood: opt_chars(self.mood),
            pov: opt_chars(self.pov),
            created: opt_instant(self.created),
            modified: opt_instant(self.modified),
        }
    }

    fn apply(&mut self, line: &Vec<char>)
        ensures
            final(self).front_matter() == apply_line(old(self).front_matter(), line@),
    {
        let l = trim_chars(line);
        let colon = vec![':'];
        assert(colon@ =~= seq![':']);
        match find_from(&l, &colon, 0) {
            None => {},
            Some(p) => {
                let n = l.len();
                assert(p + 1 <= n);
                let k = slice_chars(&l, 0, p);
                let key = trim_chars(&k);
                let v = slice_chars(&l, p + 1, n);
                let tv = trim_chars(&v);
                let value = unquote_chars(&tv);
                assert(l@.take(p as int) == l@.subrange(0, p as int));
                assert(l@.skip(p + 1) == l@.subrange(p + 1, l@.len() as int));
                if eq_str(&key, "title") {
                    self.title = value;
                } else if eq_str(&key, "status") {
                    self.status = value;
                } else if eq_str(&key, "mood") {
                    self.mood = Some(value);
                } else if eq_str(&key, "pov") {
                    self.pov = Some(value);
                } else if eq_str(&key, "created_at") {
                    let s = string_of(&value);
                    let parsed = parse_rfc3339(s.as_str());
                    if parsed.is_some() {
                        self.created = parsed;
                    }
                } else if eq_str(&key, "modified_at") {
                    let s = string_of(&value);
                    let parsed = parse_rfc3339(s.as_str());
                    if parsed.is_some() {
                        self.modified = parsed;
                    }
                }
            },
        }
    }
}

impl Chapter {
    /// A new empty draft chapter with a fresh identifier.
    pub fn new(title: &str) -> (r: Chapter)
        ensures
            r.title@ == title@,
            r.content@ == Seq::<char>::empty(),
            r.status@ == "draft"@,
            r.mood is None,
            r.pov is None,
            r.word_count == 0,
            r.created_at == r.modified_at,
            uuid_text(r.id@),
    {
        let t = now();
        Chapter {
            id: new_id(),
            title: title.to_string(),
            content: String::new(),
            status: String::from_str("draft"),
            mood: None,
            pov: None,
            word_count: 0,
            created_at: t,
            modified_at: t,
        }
    }

    /// The name of the chapter's file: its identifier and `.md`.
    pub fn filename(&self) -> (r: String)
        ensures
            r@ == self.id@ + ".md"@,
    {
        let mut s = self.id.clone();
        s.append(".md");
        s
    }

    /// The chapter as file text: frontmatter between `---` lines, a blank line, the body.
    pub fn to_markdown(&self) -> (r: String)
        ensures
            r@ == chapter_text(*self),
            fields_read_back(*self) ==> reads_back(r@, *self),
    {
        let mut out: Vec<char> = Vec::new();
        push_str(&mut out, "---\n");
        push_quoted(&mut out, "id", &self.id);
        push_quoted(&mut out, "title", &self.title);
        push_quoted(&mut out, "status", &self.status);
        match &self.mood {
            Some(m) => push_quoted(&mut out, "mood", m),
            None => {},
        }
        match &self.pov {
            Some(p) => push_quoted(&mut out, "pov", p),
            None => {},
        }
        push_count_line(&mut out, self.word_count);
        let created = format_rfc3339(self.created_at);
        push_quoted(&mut out, "created_at", &created);
        let modified = format_rfc3339(self.modified_at);
        push_quoted(&mut out, "modified_at", &modified);
        assert(out@ =~= "---\n"@ + front_matter_block(*self));
        push_str(&mut out, "---\n\n");
        let body = to_chars(self.content.as_str());
        push_chars(&mut out, &body);
        proof {
            if fields_read_back(*self) {
                lemma_round_trip(*self);
            }
        }
        string_of(&out)
    }

    /// Reads a chapter from its file text; `file_stem` is the file name without `.md`, which
    /// gives the identifier. Text without frontmatter, or whose frontmatter is not closed, is
    /// all body, with default metadata.
    pub fn from_markdown(raw: &str, file_stem: Option<&str>) -> (r: Result<Chapter, ChapterError>)
        ensures
            r is Ok,
            r matches Ok(c) ==> {
                &&& c.id@ == stem_or(file_stem, "unknown"@)
                &&& !starts_with_delimiter(raw@) ==> {
                    &&& c.title@ == stem_or(file_stem, "Untitled"@)
                    &&& c.content@ == raw@
                    &&& c.status@ == "draft"@
                    &&& c.mood is None && c.pov is None
                    &&& c.word_count == word_count(raw@)
                    &&& c.created_at == c.modified_at
                }
                &&& starts_with_delimiter(raw@) && closing_delimiter(raw@) is None ==> {
                    &&& c.title@ == "Untitled"@
                    &&& c.content@ == raw@
                    &&& c.status@ == "draft"@
                    &&& c.mood is None && c.pov is None
                    &&& c.word_count == word_count(raw@)
                    &&& c.created_at == c.modified_at
                }
                &&& starts_with_delimiter(raw@) && closing_delimiter(raw@) is Some ==> {
                    let k = closing_delimiter(raw@)->0;
                    let fm = parse_front_matter(raw@.subrange(3, k));
                    &&& c.title@ == fm.title
                    &&& c.status@ == fm.status
                    &&& opt_view(c.mood) == fm.mood
                    &&& opt_view(c.pov) == fm.pov
                    &&& c.content@ == body_after(raw@.skip(k + 3))
                    &&& c.word_count == word_count(c.content@)
                    &&& fm.created matches Some(t) ==> (c.created_at.secs, c.created_at.nanos) == t
                    &&& fm.modified matches Some(t) ==> (c.modified_at.secs, c.modified_at.nanos)
                        == t
                }
            },
    {
        let id = match file_stem {
            Some(s) => s.to_string(),
            None => String::from_str("unknown"),
        };
        let t = to_chars(raw);
        let n = t.len();
        let opens = n >= 3 && t[0] == '-' && t[1] == '-' && t[2] == '-';
        assert(opens == starts_with_delimiter(raw@)) by {
            if n >= 3 && t[0] == '-' && t[1] == '-' && t[2] == '-' {
                assert(t@.take(3) =~= delimiter());
            }
        }
        if !opens {
            let title = match file_stem {
                Some(s) => s.to_string(),
                None => String::from_str("Untitled"),
            };
            let at = now();
            return Ok(
                Chapter {
                    id,
                    title,
                    content: raw.to_string(),
                    status: String::from_str("draft"),
                    mood: None,
                    pov: None,
                    word_count: count_word_chars(&t) as u64,
                    created_at: at,
                    modified_at: at,
                },
            );
        }
        let delim = vec!['-', '-', '-'];
        assert(delim@ =~= delimiter());
        match find_from(&t, &delim, 3) {
            None => {
                let at = now();
                Ok(
                    Chapter {
                        id,
                        title: String::from_str("Untitled"),
                        content: raw.to_string(),
                        status: String::from_str("draft"),
                        mood: None,
                        pov: None,
                        word_count: count_word_chars(&t) as u64,
                        created_at: at,
                        modified_at: at,
                    },
                )
            },
            Some(k) => {
                let block = slice_chars(&t, 3, k);
                let after = slice_chars(&t, k + 3, n);
                assert(after@ == raw@.skip(k + 3));
                let content = body_chars(&after);
                let word_count = count_word_chars(&content) as u64;
                let tb = trim_chars(&block);
                let ls = split_lines(&tb);
                let mut f = Fields {
                    title: to_chars("Untitled"),
                    status: to_chars("draft"),
                    mood: None,
                    pov: None,
                    created: None,
                    modified: None,
                };
                let mut i: usize = 0;
                while i < ls.len()
                    invariant
                        i <= ls@.len(),
                        views(ls@) == lines(tb@),
                        f.front_matter() == parse_lines(views(ls@).take(i as int)),
                    decreases ls@.len() - i,
                {
                    f.apply(&ls[i]);
                    let ghost pre = views(ls@).take(i as int);
                    i = i + 1;
                    assert(views(ls@).take(i as int).drop_last() =~= pre);
                    assert(views(ls@).take(i as int).last() == ls@[i - 1]@);
                }
                assert(views(ls@).take(ls@.len() as int) =~= views(ls@));
                let created_at = match f.created {
                    Some(c) => c,
                    None => now(),
                };
                let modified_at = match f.modified {
                    Some(m) => m,
                    None => now(),
                };
                let mood = match f.mood {
                    Some(m) => Some(string_of(&m)),
                    None => None,
                };
                let pov = match f.pov {
                    Some(p) => Some(string_of(&p)),
                    None => None,
                };
                Ok(
                    Chapter {
                        id,
                        title: string_of(&f.title),
                        content: string_of(&content),
                        status: string_of(&f.status),
                        mood,
                        pov,
                        word_count,
                        created_at,
                        modified_at,
                    },
                )
            },
        }
    }

    /// Replaces the body, recounts its words and stamps the modification time.
    pub fn update_content(&mut self, new_content: &str)
        ensures
            final(self).content@ == new_content@,
            final(self).word_count == word_count(new_content@),
            final(self).id == old(self).id,
            final(self).title == old(self).title,
            final(self).status == old(self).status,
            final(self).mood == old(self).mood,
            final(self).pov == old(self).pov,
            final(self).created_at == old(self).created_at,
    {
        self.content = new_content.to_string();
        self.word_count = count_words(new_content) as u64;
        self.modified_at = now();
    }
}

/// The text without one line ending at its start.
fn skip_line_end_chars(t: &Vec<char>) -> (r: Vec<char>)
    ensures
        r@ == skip_line_end(t@),
{
    let n = t.len();
    if n >= 2 && t[0] == '\r' && t[1] == '\n' {
        slice_chars(t, 2, n)
    } else if n >= 1 && t[0] == '\n' {
        slice_chars(t, 1, n)
    } else {
        slice_chars(t, 0, n)
    }
}

/// The body after the closing delimiter.
fn body_chars(rest: &Vec<char>) -> (r: Vec<char>)
    ensures
        r@ == body_after(rest@),
{
    let once = skip_line_end_chars(rest);
    skip_line_end_chars(&once)
}

/// Appends the line `word_count: n`.
fn push_count_line(out: &mut Vec<char>, n: u64)
    ensures
        final(out)@ == old(out)@ + ("word_count: "@ + decimal(n as nat) + seq!['\n']),
{
    push_str(out, "word_count: ");
    push_decimal(out, n as u128);
    out.push('\n');
    assert(out@ =~= old(out)@ + ("word_count: "@ + decimal(n as nat) + seq!['\n']));
}

/// Appends the line `key: "value"`.
fn push_quoted(out: &mut Vec<char>, key: &str, value: &String)
    ensures
        final(out)@ == old(out)@ + quoted_line(key@, value@),
{
    push_str(out, key);
    push_str(out, ": \"");
    push_str(out, value.as_str());
    push_str(out, "\"\n");
    assert(out@ =~= old(out)@ + quoted_line(key@, value@));
}

} // verus!

verus! {

/// One frontmatter line, without its line feed.
pub open spec fn line_of(key: Seq<char>, value: Seq<char>) -> Seq<char> {
    key + ": \""@ + value + "\""@
}

/// The given lines, each followed by a line feed.
pub open spec fn concat_lines(ls: Seq<Seq<char>>) -> Seq<char>
    decreases ls.len(),
{
    if ls.len() == 0 {
        Seq::empty()
    } else {
        concat_lines(ls.drop_last()) + ls.last() + seq!['\n']
    }
}

/// The optional line of a key, as a list of zero or one lines.
pub open spec fn optional_lines(key: Seq<char>, value: Option<Seq<char>>) -> Seq<Seq<char>> {
    match value {
        Some(v) => seq![line_of(key, v)],
        None => Seq::empty(),
    }
}

/// The frontmatter lines of a chapter, in the order they are written.
pub open spec fn front_matter_lines(c: Chapter) -> Seq<Seq<char>> {
    seq![line_of("id"@, c.id@), line_of("title"@, c.title@), line_of("status"@, c.status@)]
        + optional_lines("mood"@, opt_view(c.mood)) + optional_lines("pov"@, opt_view(c.pov))
        + seq![
        "word_count: "@ + decimal(c.word_count as nat),
        line_of("created_at"@, rfc3339_text(c.created_at.secs, c.created_at.nanos)),
        line_of("modified_at"@, rfc3339_text(c.modified_at.secs, c.modified_at.nanos)),
    ]
}

/// Whether a text holds no line feed.
pub open spec fn single_line(t: Seq<char>) -> bool {
    forall|i: int| 0 <= i < t.len() ==> t[i] != '\n'
}

/// Whether a value reads back unchanged from between quotes: it neither starts nor ends
/// with a quote.
pub open spec fn unquoted_value(t: Seq<char>) -> bool {
    t.len() == 0 || (t[0] != '"' && t.last() != '"')
}

/// Whether a value can be written in the frontmatter and read back as it is.
pub open spec fn plain_value(t: Seq<char>) -> bool {
    single_line(t) && unquoted_value(t)
}

/// Whether an optional value can be written and read back as it is.
pub open spec fn plain_option(o: Option<Seq<char>>) -> bool {
    match o {
        Some(t) => plain_value(t),
        None => true,
    }
}

/// Whether the frontmatter of a chapter reads back as written: every value is one line,
/// the four text fields carry no quotes at their ends, and no `---` occurs in the block.
pub open spec fn frontmatter_safe(c: Chapter) -> bool {
    &&& single_line(c.id@)
    &&& plain_value(c.title@)
    &&& plain_value(c.status@)
    &&& plain_option(opt_view(c.mood))
    &&& plain_option(opt_view(c.pov))
    &&& single_line(rfc3339_text(c.created_at.secs, c.created_at.nanos))
    &&& single_line(rfc3339_text(c.modified_at.secs, c.modified_at.nanos))
    &&& forall|i: int| !occurs_at(front_matter_block(c), i, delimiter())
}

/// Whether `---` occurs nowhere in a text.
pub open spec fn dash_free(t: Seq<char>) -> bool {
    forall|i: int| !occurs_at(t, i, delimiter())
}

/// Whether a field can be written in the frontmatter and read back as it is: one line, no
/// `---`, and no quote at either end.
pub open spec fn field_reads_back(t: Seq<char>) -> bool {
    plain_value(t) && dash_free(t)
}

/// Whether an optional field can be written and read back as it is.
pub open spec fn option_reads_back(o: Option<Seq<char>>) -> bool {
    match o {
        Some(t) => field_reads_back(t),
        None => true,
    }
}

/// Whether the chapter's fields can be written in its frontmatter and read back as they are.
pub open spec fn fields_read_back(c: Chapter) -> bool {
    &&& single_line(c.id@)
    &&& dash_free(c.id@)
    &&& field_reads_back(c.title@)
    &&& field_reads_back(c.status@)
    &&& option_reads_back(opt_view(c.mood))
    &&& option_reads_back(opt_view(c.pov))
}

proof fn lemma_dash_free_concat(a: Seq<char>, b: Seq<char>)
    requires
        dash_free(a),
        dash_free(b),
        a.len() == 0 || b.len() == 0 || a.last() != '-' || b[0] != '-',
    ensures
        dash_free(a + b),
{
    let t = a + b;
    assert forall|i: int| !occurs_at(t, i, delimiter()) by {
        if occurs_at(t, i, delimiter()) {
            let w = t.subrange(i, i + 3);
            assert(w[0] == t[i] && w[1] == t[i + 1] && w[2] == t[i + 2]);
            assert(w == delimiter());
            if i + 3 <= a.len() {
                assert(a.subrange(i, i + 3) =~= w);
                assert(occurs_at(a, i, delimiter()));
            } else if i >= a.len() {
                assert(b.subrange(i - a.len(), i - a.len() + 3) =~= w);
                assert(occurs_at(b, i - a.len(), delimiter()));
            } else {
                assert(a.len() > 0 && b.len() > 0);
                assert(t[a.len() - 1] == a.last());
                assert(t[a.len() as int] == b[0]);
                assert(delimiter()[0] == '-' && delimiter()[1] == '-' && delimiter()[2] == '-');
                assert(w[0] == '-' && w[1] == '-' && w[2] == '-');
                if i == a.len() - 1 {
                    assert(w[0] == a.last() && w[1] == b[0]);
                } else {
                    assert(i == a.len() - 2);
                    assert(w[1] == a.last() && w[2] == b[0]);
                }
            }
        }
    }
}

proof fn lemma_no_hyphen_dash_free(t: Seq<char>)
    requires
        forall|i: int| 0 <= i < t.len() ==> t[i] != '-',
    ensures
        dash_free(t),
{
    assert forall|i: int| !occurs_at(t, i, delimiter()) by {
        if occurs_at(t, i, delimiter()) {
            assert(t.subrange(i, i + 3)[0] == t[i]);
        }
    }
}

proof fn lemma_rfc_dash_free(t: Seq<char>)
    requires
        rfc3339_plain(t),
    ensures
        dash_free(t),
        single_line(t),
        unquoted_value(t),
{
    assert forall|i: int| !occurs_at(t, i, delimiter()) by {
        if occurs_at(t, i, delimiter()) {
            assert(t.subrange(i, i + 3)[0] == t[i]);
            assert(t.subrange(i, i + 3)[1] == t[i + 1]);
        }
    }
    if t.len() > 0 {
        assert(t.last() == t[t.len() - 1]);
    }
}

/// A `key: "value"` line is free of `---` where the value is, and it ends in a line feed.
proof fn lemma_quoted_dash_free(key: Seq<char>, v: Seq<char>)
    requires
        forall|i: int| 0 <= i < key.len() ==> key[i] != '-',
        dash_free(v),
    ensures
        dash_free(quoted_line(key, v)),
        quoted_line(key, v).len() > 0,
        quoted_line(key, v).last() == '\n',
{
    reveal_strlit(": \"");
    reveal_strlit("\"\n");
    let p = seq![':', ' ', '"'];
    let q = seq!['"', '\n'];
    assert(": \""@ =~= p);
    assert("\"\n"@ =~= q);
    lemma_no_hyphen_dash_free(key);
    lemma_no_hyphen_dash_free(p);
    lemma_no_hyphen_dash_free(q);
    lemma_dash_free_concat(key, p);
    lemma_dash_free_concat(key + p, v);
    lemma_dash_free_concat(key + p + v, q);
    assert(quoted_line(key, v) =~= key + p + v + q);
}

/// Fields that read back, with chrono's text for the times, make a frontmatter block that
/// reads back as written.
proof fn lemma_fields_make_block_safe(c: Chapter)
    requires
        fields_read_back(c),
        rfc3339_plain(rfc3339_text(c.created_at.secs, c.created_at.nanos)),
        rfc3339_plain(rfc3339_text(c.modified_at.secs, c.modified_at.nanos)),
    ensures
        frontmatter_safe(c),
{
    reveal_strlit("id");
    reveal_strlit("title");
    reveal_strlit("status");
    reveal_strlit("mood");
    reveal_strlit("pov");
    reveal_strlit("created_at");
    reveal_strlit("modified_at");
    reveal_strlit("word_count: ");
    let cr = rfc3339_text(c.created_at.secs, c.created_at.nanos);
    let mo = rfc3339_text(c.modified_at.secs, c.modified_at.nanos);
    lemma_rfc_dash_free(cr);
    lemma_rfc_dash_free(mo);
    let q_id = quoted_line("id"@, c.id@);
    let q_title = quoted_line("title"@, c.title@);
    let q_status = quoted_line("status"@, c.status@);
    let o_mood = optional_line("mood"@, opt_view(c.mood));
    let o_pov = optional_line("pov"@, opt_view(c.pov));
    let wc = "word_count: "@ + decimal(c.word_count as nat) + seq!['\n'];
    let q_cr = quoted_line("created_at"@, cr);
    let q_mo = quoted_line("modified_at"@, mo);
    lemma_quoted_dash_free("id"@, c.id@);
    lemma_quoted_dash_free("title"@, c.title@);
    lemma_quoted_dash_free("status"@, c.status@);
    lemma_quoted_dash_free("created_at"@, cr);
    lemma_quoted_dash_free("modified_at"@, mo);
    match opt_view(c.mood) {
        Some(v) => lemma_quoted_dash_free("mood"@, v),
        None => lemma_no_hyphen_dash_free(o_mood),
    }
    match opt_view(c.pov) {
        Some(v) => lemma_quoted_dash_free("pov"@, v),
        None => lemma_no_hyphen_dash_free(o_pov),
    }
    lemma_decimal_digits(c.word_count as nat);
    assert forall|i: int| 0 <= i < wc.len() implies wc[i] != '-' by {
        if 12 <= i < wc.len() - 1 {
            assert(wc[i] == decimal(c.word_count as nat)[i - 12]);
        }
    }
    lemma_no_hyphen_dash_free(wc);
    let a1 = q_id + q_title;
    lemma_dash_free_concat(q_id, q_title);
    let a2 = a1 + q_status;
    lemma_dash_free_concat(a1, q_status);
    let a3 = a2 + o_mood;
    lemma_dash_free_concat(a2, o_mood);
    assert(a3.last() == '\n');
    let a4 = a3 + o_pov;
    lemma_dash_free_concat(a3, o_pov);
    assert(a4.last() == '\n');
    let a5 = a4 + wc;
    lemma_dash_free_concat(a4, wc);
    let a6 = a5 + q_cr;
    lemma_dash_free_concat(a5, q_cr);
    lemma_dash_free_concat(a6, q_mo);
    assert(front_matter_block(c) == a6 + q_mo);
}

proof fn lemma_split_lf_len(t: Seq<char>)
    ensures
        split_lf(t).len() >= 1,
    decreases t.len(),
{
    if t.len() > 0 {
        lemma_split_lf_len(t.drop_last());
    }
}

proof fn lemma_split_single_line(a: Seq<char>, b: Seq<char>)
    requires
        single_line(b),
    ensures
        split_lf(a + b) == split_lf(a).update(
            split_lf(a).len() - 1,
            split_lf(a).last() + b,
        ),
    decreases b.len(),
{
    lemma_split_lf_len(a);
    if b.len() == 0 {
        assert(a + b =~= a);
        assert(split_lf(a).last() + b =~= split_lf(a).last());
        assert(split_lf(a).update(split_lf(a).len() - 1, split_lf(a).last()) =~= split_lf(a));
    } else {
        let b0 = b.drop_last();
        lemma_split_single_line(a, b0);
        assert((a + b).drop_last() =~= a + b0);
        assert((a + b).last() == b.last());
        let s = split_lf(a);
        assert(s.update(s.len() - 1, s.last() + b0).last() == s.last() + b0);
        assert((s.last() + b0).push(b.last()) =~= s.last() + b);
        assert(s.update(s.len() - 1, s.last() + b0).update(s.len() - 1, s.last() + b) =~= s.update(
            s.len() - 1,
            s.last() + b,
        ));
    }
}

proof fn lemma_split_concat_lines(ls: Seq<Seq<char>>)
    requires
        forall|i: int| 0 <= i < ls.len() ==> single_line(#[trigger] ls[i]),
    ensures
        split_lf(concat_lines(ls)) == ls.push(Seq::<char>::empty()),
    decreases ls.len(),
{
    if ls.len() == 0 {
        assert(split_lf(Seq::<char>::empty()) =~= seq![Seq::<char>::empty()]);
    } else {
        let init = ls.drop_last();
        assert forall|i: int| 0 <= i < init.len() implies single_line(#[trigger] init[i]) by {
            assert(init[i] == ls[i]);
        }
        lemma_split_concat_lines(init);
        let x = concat_lines(init);
        assert(single_line(ls[ls.len() - 1]));
        lemma_split_single_line(x, ls.last());
        let y = concat_lines(ls);
        assert(y.drop_last() =~= x + ls.last());
        assert(y.last() == '\n');
        assert(init.push(Seq::<char>::empty()).update(init.len() as int, Seq::<char>::empty() + ls.last())
            =~= ls);
    }
}

proof fn lemma_first_occurrence_at(t: Seq<char>, d: Seq<char>, i: int, p: int)
    requires
        0 <= i <= p,
        d.len() > 0,
        occurs_at(t, p, d),
        forall|q: int| i <= q < p ==> !occurs_at(t, q, d),
    ensures
        first_occurrence(t, d, i) == Some(p),
    decreases p - i,
{
    if i < p {
        lemma_first_occurrence_at(t, d, i + 1, p);
    }
}

proof fn lemma_unquote(v: Seq<char>)
    requires
        unquoted_value(v),
    ensures
        unquote(seq!['"'] + v + seq!['"']) == v,
{
    let q = seq!['"'] + v + seq!['"'];
    assert(q.skip(1) =~= v + seq!['"']);
    assert(strip_quotes_start(q) == strip_quotes_start(q.skip(1)));
    if v.len() == 0 {
        assert(q.skip(1).skip(1) =~= Seq::<char>::empty());
        assert(strip_quotes_start(q.skip(1)) == strip_quotes_start(q.skip(1).skip(1)));
        assert(strip_quotes_start(Seq::<char>::empty()) == Seq::<char>::empty());
        assert(strip_quotes_end(Seq::<char>::empty()) == Seq::<char>::empty());
        assert(v =~= Seq::<char>::empty());
    } else {
        assert((v + seq!['"'])[0] == v[0]);
        assert(strip_quotes_start(v + seq!['"']) == v + seq!['"']);
        assert((v + seq!['"']).drop_last() =~= v);
        assert(strip_quotes_end(v + seq!['"']) == strip_quotes_end(v));
        assert(strip_quotes_end(v) == v);
    }
}

/// What `apply_line` reads from `key: "value"`: the key and the value as written.
proof fn lemma_read_line(fm: FrontMatter, key: Seq<char>, v: Seq<char>)
    requires
        key.len() > 0,
        forall|i: int| 0 <= i < key.len() ==> key[i] != ':' && !is_ws_spec(#[trigger] key[i]),
        unquoted_value(v),
    ensures
        apply_line(fm, line_of(key, v)) == (if key == "title"@ {
            FrontMatter { title: v, ..fm }
        } else if key == "status"@ {
            FrontMatter { status: v, ..fm }
        } else if key == "mood"@ {
            FrontMatter { mood: Some(v), ..fm }
        } else if key == "pov"@ {
            FrontMatter { pov: Some(v), ..fm }
        } else if key == "created_at"@ && rfc3339_instant(v) is Some {
            FrontMatter { created: rfc3339_instant(v), ..fm }
        } else if key == "modified_at"@ && rfc3339_instant(v) is Some {
            FrontMatter { modified: rfc3339_instant(v), ..fm }
        } else {
            fm
        }),
{
    reveal_strlit(": \"");
    reveal_strlit("\"");
    let l = line_of(key, v);
    let k = key.len() as int;
    assert(l =~= key + seq![':', ' ', '"'] + v + seq!['"']);
    assert(l[0] == key[0]);
    assert(trim_start(l) == l);
    assert(l.last() == '"');
    assert(trim_end(l) == l);
    assert forall|q: int| 0 <= q < k implies !occurs_at(l, q, seq![':']) by {
        assert(l[q] == key[q]);
        assert(l.subrange(q, q + 1)[0] == l[q]);
    }
    assert(occurs_at(l, k, seq![':'])) by {
        assert(l.subrange(k, k + 1) =~= seq![':']);
    }
    lemma_first_occurrence_at(l, seq![':'], 0, k);
    assert(l.take(k) =~= key);
    assert(trim_start(key) == key);
    assert(trim_end(key) == key) by {
        assert(key.last() == key[k - 1]);
    }
    let rest = l.skip(k + 1);
    assert(rest =~= seq![' '] + (seq!['"'] + v + seq!['"']));
    assert(rest.skip(1) =~= seq!['"'] + v + seq!['"']);
    assert(trim_start(seq!['"'] + v + seq!['"']) == seq!['"'] + v + seq!['"']);
    assert(trim_start(rest) == seq!['"'] + v + seq!['"']);
    assert(trim_end(seq!['"'] + v + seq!['"']) == seq!['"'] + v + seq!['"']);
    lemma_unquote(v);
}

/// What `apply_line` makes of the word count line: nothing changes.
proof fn lemma_read_count_line(fm: FrontMatter, n: nat)
    ensures
        apply_line(fm, "word_count: "@ + decimal(n)) == fm,
{
    reveal_strlit("word_count: ");
    let key = seq!['w', 'o', 'r', 'd', '_', 'c', 'o', 'u', 'n', 't'];
    let l = "word_count: "@ + decimal(n);
    lemma_decimal_digits(n);
    assert(l[0] == 'w');
    assert(trim_start(l) == l);
    assert(l.last() == decimal(n).last());
    assert(trim_end(l) == l);
    assert forall|q: int| 0 <= q < 10 implies !occurs_at(l, q, seq![':']) by {
        assert(l.subrange(q, q + 1)[0] == l[q]);
    }
    assert(occurs_at(l, 10, seq![':'])) by {
        assert(l.subrange(10, 11) =~= seq![':']);
    }
    lemma_first_occurrence_at(l, seq![':'], 0, 10);
    assert(l.take(10) =~= key);
    assert(trim_start(key) == key);
    assert(trim_end(key) == key);
    reveal_strlit("title");
    reveal_strlit("status");
    reveal_strlit("mood");
    reveal_strlit("pov");
    reveal_strlit("created_at");
    reveal_strlit("modified_at");
    assert(key != "title"@ && key != "status"@ && key != "mood"@ && key != "pov"@);
    assert(key[0] != "created_at"@[0]);
    assert(key != "modified_at"@);
}

proof fn lemma_decimal_digits(n: nat)
    ensures
        decimal(n).len() > 0,
        forall|i: int| 0 <= i < decimal(n).len() ==> '0' <= #[trigger] decimal(n)[i] <= '9',
    decreases n,
{
    if n >= 10 {
        lemma_decimal_digits(n / 10);
        assert forall|i: int| 0 <= i < decimal(n).len() implies '0' <= #[trigger] decimal(n)[i]
            <= '9' by {
            if i < decimal(n / 10).len() {
                assert(decimal(n)[i] == decimal(n / 10)[i]);
            }
        }
    }
}


proof fn lemma_concat_lines_append(a: Seq<Seq<char>>, b: Seq<Seq<char>>)
    ensures
        concat_lines(a + b) == concat_lines(a) + concat_lines(b),
    decreases b.len(),
{
    if b.len() == 0 {
        assert(a + b =~= a);
        assert(concat_lines(a) + concat_lines(b) =~= concat_lines(a));
    } else {
        lemma_concat_lines_append(a, b.drop_last());
        assert((a + b).drop_last() =~= a + b.drop_last());
        assert((a + b).last() == b.last());
        assert(concat_lines(a + b) =~= concat_lines(a) + concat_lines(b));
    }
}

proof fn lemma_concat_one(l: Seq<char>)
    ensures
        concat_lines(seq![l]) == l + seq!['\n'],
{
    assert(seq![l].drop_last() =~= Seq::<Seq<char>>::empty());
    assert(concat_lines(Seq::<Seq<char>>::empty()) + l + seq!['\n'] =~= l + seq!['\n']);
}

proof fn lemma_quoted_line(key: Seq<char>, v: Seq<char>)
    ensures
        quoted_line(key, v) == concat_lines(seq![line_of(key, v)]),
{
    reveal_strlit("\"\n");
    reveal_strlit("\"");
    lemma_concat_one(line_of(key, v));
    assert(quoted_line(key, v) =~= line_of(key, v) + seq!['\n']);
}

proof fn lemma_optional_line(key: Seq<char>, o: Option<Seq<char>>)
    ensures
        optional_line(key, o) == concat_lines(optional_lines(key, o)),
{
    match o {
        Some(v) => lemma_quoted_line(key, v),
        None => {},
    }
}

#[verifier::spinoff_prover]
#[verifier::rlimit(40)]
proof fn lemma_block_lines(c: Chapter)
    ensures
        front_matter_block(c) == concat_lines(front_matter_lines(c)),
{
    let a = seq![line_of("id"@, c.id@), line_of("title"@, c.title@), line_of("status"@, c.status@)];
    let m = optional_lines("mood"@, opt_view(c.mood));
    let p = optional_lines("pov"@, opt_view(c.pov));
    let wc = "word_count: "@ + decimal(c.word_count as nat);
    let cr = line_of("created_at"@, rfc3339_text(c.created_at.secs, c.created_at.nanos));
    let mo = line_of("modified_at"@, rfc3339_text(c.modified_at.secs, c.modified_at.nanos));
    let z = seq![wc, cr, mo];
    lemma_concat_lines_append(a + m + p, z);
    lemma_concat_lines_append(a + m, p);
    lemma_concat_lines_append(a, m);
    lemma_concat_lines_append(seq![a[0]], seq![a[1], a[2]]);
    lemma_concat_lines_append(seq![a[1]], seq![a[2]]);
    lemma_concat_lines_append(seq![wc], seq![cr, mo]);
    lemma_concat_lines_append(seq![cr], seq![mo]);
    assert(a =~= seq![a[0]] + seq![a[1], a[2]]);
    assert(seq![a[1], a[2]] =~= seq![a[1]] + seq![a[2]]);
    assert(z =~= seq![wc] + seq![cr, mo]);
    assert(seq![cr, mo] =~= seq![cr] + seq![mo]);
    lemma_quoted_line("id"@, c.id@);
    lemma_quoted_line("title"@, c.title@);
    lemma_quoted_line("status"@, c.status@);
    lemma_quoted_line("created_at"@, rfc3339_text(c.created_at.secs, c.created_at.nanos));
    lemma_quoted_line("modified_at"@, rfc3339_text(c.modified_at.secs, c.modified_at.nanos));
    lemma_optional_line("mood"@, opt_view(c.mood));
    lemma_optional_line("pov"@, opt_view(c.pov));
    lemma_concat_one(wc);
    assert(front_matter_block(c) =~= concat_lines(front_matter_lines(c)));
}

proof fn lemma_line_of_single(key: Seq<char>, v: Seq<char>)
    requires
        single_line(key),
        single_line(v),
    ensures
        single_line(line_of(key, v)),
        line_of(key, v).len() > 0,
        line_of(key, v).last() == '"',
{
    reveal_strlit(": \"");
    reveal_strlit("\"");
    assert(line_of(key, v) =~= key + seq![':', ' ', '"'] + v + seq!['"']);
}

proof fn lemma_lines_single(c: Chapter)
    requires
        frontmatter_safe(c),
    ensures
        forall|i: int|
            0 <= i < front_matter_lines(c).len() ==> single_line(#[trigger] front_matter_lines(c)[i]),
        front_matter_lines(c).last() == line_of(
            "modified_at"@,
            rfc3339_text(c.modified_at.secs, c.modified_at.nanos),
        ),
        front_matter_lines(c)[0] == line_of("id"@, c.id@),
        front_matter_lines(c).last().len() > 0,
        front_matter_lines(c).last().last() == '"',
{
    reveal_strlit("id");
    reveal_strlit("title");
    reveal_strlit("status");
    reveal_strlit("mood");
    reveal_strlit("pov");
    reveal_strlit("created_at");
    reveal_strlit("modified_at");
    reveal_strlit("word_count: ");
    lemma_line_of_single("id"@, c.id@);
    lemma_line_of_single("title"@, c.title@);
    lemma_line_of_single("status"@, c.status@);
    lemma_line_of_single("created_at"@, rfc3339_text(c.created_at.secs, c.created_at.nanos));
    lemma_line_of_single("modified_at"@, rfc3339_text(c.modified_at.secs, c.modified_at.nanos));
    match opt_view(c.mood) {
        Some(v) => lemma_line_of_single("mood"@, v),
        None => {},
    }
    match opt_view(c.pov) {
        Some(v) => lemma_line_of_single("pov"@, v),
        None => {},
    }
    lemma_decimal_digits(c.word_count as nat);
    let wc = "word_count: "@ + decimal(c.word_count as nat);
    assert(single_line(wc)) by {
        assert forall|i: int| 0 <= i < wc.len() implies wc[i] != '\n' by {
            if i >= 12 {
                assert(wc[i] == decimal(c.word_count as nat)[i - 12]);
            }
        }
    }
}

/// The frontmatter lines read back: title, status, mood and pov as they were written.
proof fn lemma_parse_written_lines(c: Chapter)
    requires
        frontmatter_safe(c),
    ensures
        parse_lines(front_matter_lines(c)).title == c.title@,
        parse_lines(front_matter_lines(c)).status == c.status@,
        parse_lines(front_matter_lines(c)).mood == opt_view(c.mood),
        parse_lines(front_matter_lines(c)).pov == opt_view(c.pov),
{
    reveal_strlit("id");
    reveal_strlit("title");
    reveal_strlit("status");
    reveal_strlit("mood");
    reveal_strlit("pov");
    reveal_strlit("created_at");
    reveal_strlit("modified_at");
    let cr_v = rfc3339_text(c.created_at.secs, c.created_at.nanos);
    let mo_v = rfc3339_text(c.modified_at.secs, c.modified_at.nanos);
    let l_id = line_of("id"@, c.id@);
    let l_title = line_of("title"@, c.title@);
    let l_status = line_of("status"@, c.status@);
    let wc = "word_count: "@ + decimal(c.word_count as nat);
    let l_cr = line_of("created_at"@, cr_v);
    let l_mo = line_of("modified_at"@, mo_v);
    let d = default_front_matter();
    let s1 = seq![l_id];
    assert(s1.drop_last() =~= Seq::<Seq<char>>::empty());
    // The id line may hold any value: only its key matters, and `id` is no known key.
    assert(parse_lines(Seq::<Seq<char>>::empty()) == d);
    assert(s1.last() == l_id);
    assert(parse_lines(s1) == apply_line(d, l_id));
    lemma_read_id_line(d, c.id@);
    let f1 = parse_lines(s1);
    assert(f1 == d);
    let s2 = s1.push(l_title);
    assert(s2.drop_last() =~= s1);
    lemma_read_line(f1, "title"@, c.title@);
    let f2 = parse_lines(s2);
    assert(f2.title == c.title@ && f2.status == d.status && f2.mood is None && f2.pov is None);
    let s3 = s2.push(l_status);
    assert(s3.drop_last() =~= s2);
    lemma_read_line(f2, "status"@, c.status@);
    let f3 = parse_lines(s3);
    assert(f3.title == c.title@ && f3.status == c.status@ && f3.mood is None && f3.pov is None);
    let s4 = match opt_view(c.mood) {
        Some(v) => s3.push(line_of("mood"@, v)),
        None => s3,
    };
    match opt_view(c.mood) {
        Some(v) => {
            assert(s4.drop_last() =~= s3);
            lemma_read_line(f3, "mood"@, v);
        },
        None => {},
    }
    let f4 = parse_lines(s4);
    assert(f4.title == c.title@ && f4.status == c.status@ && f4.mood == opt_view(c.mood) && f4.pov is None);
    let s5 = match opt_view(c.pov) {
        Some(v) => s4.push(line_of("pov"@, v)),
        None => s4,
    };
    match opt_view(c.pov) {
        Some(v) => {
            assert(s5.drop_last() =~= s4);
            lemma_read_line(f4, "pov"@, v);
        },
        None => {},
    }
    let f5 = parse_lines(s5);
    assert(f5.title == c.title@ && f5.status == c.status@ && f5.mood == opt_view(c.mood) && f5.pov == opt_view(c.pov));
    let s6 = s5.push(wc);
    assert(s6.drop_last() =~= s5);
    lemma_read_count_line(f5, c.word_count as nat);
    let f6 = parse_lines(s6);
    assert(f6 == f5);
    let s7 = s6.push(l_cr);
    assert(s7.drop_last() =~= s6);
    lemma_read_any_line(f6, "created_at"@, cr_v);
    let f7 = parse_lines(s7);
    assert(f7.title == c.title@ && f7.status == c.status@ && f7.mood == opt_view(c.mood) && f7.pov == opt_view(c.pov));
    let s8 = s7.push(l_mo);
    assert(s8.drop_last() =~= s7);
    lemma_read_any_line(f7, "modified_at"@, mo_v);
    assert(s8 =~= front_matter_lines(c));
}

/// The `id` line changes nothing, whatever its value.
proof fn lemma_read_id_line(fm: FrontMatter, v: Seq<char>)
    ensures
        apply_line(fm, line_of("id"@, v)) == fm,
{
    reveal_strlit("id");
    lemma_read_key(fm, "id"@, v);
    reveal_strlit("title");
    reveal_strlit("status");
    reveal_strlit("mood");
    reveal_strlit("pov");
    reveal_strlit("created_at");
    reveal_strlit("modified_at");
}

/// A timestamp line changes neither title, status, mood nor pov, whatever its value.
proof fn lemma_read_any_line(fm: FrontMatter, key: Seq<char>, v: Seq<char>)
    requires
        key == "created_at"@ || key == "modified_at"@,
    ensures
        apply_line(fm, line_of(key, v)).title == fm.title,
        apply_line(fm, line_of(key, v)).status == fm.status,
        apply_line(fm, line_of(key, v)).mood == fm.mood,
        apply_line(fm, line_of(key, v)).pov == fm.pov,
{
    reveal_strlit("title");
    reveal_strlit("status");
    reveal_strlit("mood");
    reveal_strlit("pov");
    reveal_strlit("created_at");
    reveal_strlit("modified_at");
    lemma_read_key(fm, key, v);
}

/// Where the key of `key: "value"` is read, whatever the value.
proof fn lemma_read_key(fm: FrontMatter, key: Seq<char>, v: Seq<char>)
    requires
        key.len() > 0,
        forall|i: int| 0 <= i < key.len() ==> key[i] != ':' && !is_ws_spec(#[trigger] key[i]),
    ensures
        ({
            let l = trim(line_of(key, v));
            &&& first_occurrence(l, seq![':'], 0) == Some(key.len() as int)
            &&& trim(l.take(key.len() as int)) == key
        }),
{
    reveal_strlit(": \"");
    reveal_strlit("\"");
    let l = line_of(key, v);
    let k = key.len() as int;
    assert(l =~= key + seq![':', ' ', '"'] + v + seq!['"']);
    assert(l[0] == key[0]);
    assert(trim_start(l) == l);
    assert(l.last() == '"');
    assert(trim_end(l) == l);
    assert forall|q: int| 0 <= q < k implies !occurs_at(l, q, seq![':']) by {
        assert(l[q] == key[q]);
        assert(l.subrange(q, q + 1)[0] == l[q]);
    }
    assert(occurs_at(l, k, seq![':'])) by {
        assert(l.subrange(k, k + 1) =~= seq![':']);
    }
    lemma_first_occurrence_at(l, seq![':'], 0, k);
    assert(l.take(k) =~= key);
    assert(trim_start(key) == key);
    assert(trim_end(key) == key) by {
        assert(key.last() == key[k - 1]);
    }
}

/// The text of a chapter begins with the delimiter, and its frontmatter closes right after
/// the block of lines, whose last character is a line feed after a quote.
#[verifier::spinoff_prover]
proof fn lemma_closing_delimiter(c: Chapter)
    requires
        frontmatter_safe(c),
    ensures
        ({
            let t = chapter_text(c);
            let fm = front_matter_block(c);
            &&& starts_with_delimiter(t)
            &&& closing_delimiter(t) == Some(4 + fm.len() as int)
            &&& t =~= seq!['-', '-', '-', '\n'] + fm + seq!['-', '-', '-', '\n', '\n'] + c.content@
        }),
{
    reveal_strlit("---\n");
    reveal_strlit("---\n\n");
    let t = chapter_text(c);
    let fm = front_matter_block(c);
    let ls = front_matter_lines(c);
    let k = 4 + fm.len() as int;
    lemma_block_lines(c);
    lemma_lines_single(c);
    assert(fm == concat_lines(ls.drop_last()) + ls.last() + seq!['\n']);
    let body = concat_lines(ls.drop_last()) + ls.last();
    assert(fm.last() == '\n');
    assert(fm.len() >= 2);
    assert(t =~= seq!['-', '-', '-', '\n'] + fm + seq!['-', '-', '-', '\n', '\n'] + c.content@);
    assert(t.take(3) =~= delimiter());
    assert(occurs_at(t, k, delimiter())) by {
        assert(t.subrange(k, k + 3) =~= delimiter());
    }
    assert forall|q: int| 3 <= q < k implies !occurs_at(t, q, delimiter()) by {
        if q == 3 {
            assert(t[3] == '\n');
            assert(t.subrange(3, 6)[0] == t[3]);
        } else if q < k - 2 {
            assert(t.subrange(q, q + 3) =~= fm.subrange(q - 4, q - 1));
            assert(!occurs_at(fm, q - 4, delimiter()));
        } else if q == k - 2 {
            assert(t[k - 1] == '\n');
            assert(t.subrange(q, q + 3)[1] == t[k - 1]);
        } else {
            assert(t[k - 1] == '\n');
            assert(t.subrange(q, q + 3)[0] == t[k - 1]);
        }
    }
    lemma_first_occurrence_at(t, delimiter(), 3, k);
}

/// The frontmatter block begins with the `i` of its `id` line.
proof fn lemma_block_first_char(c: Chapter)
    ensures
        front_matter_block(c).len() > 0,
        front_matter_block(c)[0] == 'i',
{
    reveal_strlit("id");
    reveal_strlit(": \"");
    let ls = front_matter_lines(c);
    lemma_block_lines(c);
    lemma_concat_lines_append(seq![ls[0]], ls.skip(1));
    assert(ls =~= seq![ls[0]] + ls.skip(1));
    lemma_concat_one(ls[0]);
    assert(ls[0] == line_of("id"@, c.id@));
    assert(ls[0][0] == 'i');
}

/// The block between the delimiters trims to the written lines, joined by line feeds.
#[verifier::rlimit(80)]
#[verifier::spinoff_prover]
proof fn lemma_block_lines_read(c: Chapter)
    requires
        frontmatter_safe(c),
    ensures
        lines(trim(seq!['\n'] + front_matter_block(c))) == front_matter_lines(c),
{
    reveal_strlit("id");
    let fm = front_matter_block(c);
    let ls = front_matter_lines(c);
    lemma_block_lines(c);
    lemma_lines_single(c);
    lemma_split_concat_lines(ls);
    assert(ls.len() > 0);
    assert(fm == concat_lines(ls.drop_last()) + ls.last() + seq!['\n']);
    let body = concat_lines(ls.drop_last()) + ls.last();
    assert(fm.drop_last() =~= body);
    assert(body.last() == '"');
    let block = seq!['\n'] + fm;
    assert(block.skip(1) =~= fm);
    lemma_block_first_char(c);
    assert(trim_start(block) == trim_start(fm));
    assert(trim_start(fm) == fm);
    assert(trim_end(fm) == trim_end(body));
    assert(trim_end(body) == body);
    assert(trim(block) == body);
    assert(split_lf(fm) == split_lf(body).push(Seq::<char>::empty()));
    assert(split_lf(body) =~= ls) by {
        assert(split_lf(body) =~= split_lf(fm).drop_last());
        assert(ls.push(Seq::<char>::empty()).drop_last() =~= ls);
    }
}

/// Whether the text of a chapter file reads back as the chapter `c`: it opens with the
/// delimiter, its frontmatter closes, the frontmatter gives `c`'s title, status, mood and pov,
/// and the body after it is `c`'s body exactly.
pub open spec fn reads_back(t: Seq<char>, c: Chapter) -> bool {
    &&& starts_with_delimiter(t)
    &&& closing_delimiter(t) is Some
    &&& {
        let k = closing_delimiter(t)->0;
        let fm = parse_front_matter(t.subrange(3, k));
        &&& fm.title == c.title@
        &&& fm.status == c.status@
        &&& fm.mood == opt_view(c.mood)
        &&& fm.pov == opt_view(c.pov)
        &&& body_after(t.skip(k + 3)) == c.content@
    }
}

/// A chapter written out and read back keeps its title, status, mood, pov and body; its
/// word count, recounted on reading, is then that of its body. This holds where the fields
/// read back as written (`fields_read_back`) and the times are written as chrono writes
/// RFC 3339, which `to_markdown` ensures.
pub proof fn lemma_round_trip(c: Chapter)
    requires
        fields_read_back(c),
        rfc3339_plain(rfc3339_text(c.created_at.secs, c.created_at.nanos)),
        rfc3339_plain(rfc3339_text(c.modified_at.secs, c.modified_at.nanos)),
    ensures
        reads_back(chapter_text(c), c),
        closing_delimiter(chapter_text(c)) == Some(4 + front_matter_block(c).len() as int),
{
    lemma_fields_make_block_safe(c);
    let t = chapter_text(c);
    let fm = front_matter_block(c);
    let k = 4 + fm.len() as int;
    lemma_closing_delimiter(c);
    assert(t.subrange(3, k) =~= seq!['\n'] + fm);
    lemma_block_lines_read(c);
    lemma_parse_written_lines(c);
    let rest = t.skip(k + 3);
    assert(rest =~= seq!['\n', '\n'] + c.content@);
    assert(skip_line_end(rest) =~= seq!['\n'] + c.content@);
    assert(skip_line_end(seq!['\n'] + c.content@) =~= c.content@);
}

} // verus!
