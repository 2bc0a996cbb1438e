use vstd::prelude::*;

use crate::chapter::{closing_delimiter, starts_with_delimiter};
use crate::inline::{occurs, occurs_at};
use crate::text::{lines, slice_chars, split_lines, string_of, to_chars, views};

verus! {

/// One occurrence of the query: its line, counted from one, the line's text, and the byte
/// range of the occurrence in the searched form of the line.
#[derive(Clone, Debug)]
pub struct SearchMatch {
    pub line_number: usize,
    pub line_content: String,
    pub start: usize,
    pub end: usize,
}

/// The occurrences of the query in one chapter.
#[derive(Clone, Debug)]
pub struct SearchResult {
    pub chapter_id: String,
    pub chapter_title: String,
    pub matches: Vec<SearchMatch>,
}

/// A match as plain values.
pub struct MatchView {
    pub line_number: nat,
    pub line: Seq<char>,
    pub start: nat,
    pub end: nat,
}

impl SearchMatch {
    pub open spec fn view(&self) -> MatchView {
        MatchView {
            line_number: self.line_number as nat,
            line: self.line_content@,
            start: self.start as nat,
            end: self.end as nat,
        }
    }
}

/// The views of a list of matches.
pub open spec fn match_views(v: Seq<SearchMatch>) -> Seq<MatchView> {
    v.map_values(|m: SearchMatch| m.view())
}

/// The lowercase form of a text, as `str::to_lowercase` gives it.
pub uninterp spec fn lower_of(s: Seq<char>) -> Seq<char>;

/// Relies on `str::to_lowercase`: the result depends on the characters alone, and an empty
/// text stays empty.
#[verifier::external_body]
pub(crate) fn lowercase(s: &str) -> (r: String)
    ensures
        r@ == lower_of(s@),
        s@.len() == 0 ==> r@.len() == 0,
{
    s.to_lowercase()
}

/// The number of bytes of a character in UTF-8.
pub open spec fn utf8_len(c: char) -> nat {
    if (c as u32) < 0x80 {
        1
    } else if (c as u32) < 0x800 {
        2
    } else if (c as u32) < 0x10000 {
        3
    } else {
        4
    }
}

/// The number of bytes of a text in UTF-8.
pub open spec fn utf8_width(s: Seq<char>) -> nat
    decreases s.len(),
{
    if s.len() == 0 {
        0
    } else {
        utf8_width(s.drop_last()) + utf8_len(s.last())
    }
}

/// `n`, or `usize::MAX` where it is larger.
pub open spec fn capped(n: nat) -> nat {
    if n > usize::MAX {
        usize::MAX as nat
    } else {
        n
    }
}

/// The body of a chapter file: what follows the frontmatter, or the whole text where there
/// is none; nothing where the frontmatter is not closed.
pub open spec fn file_body(t: Seq<char>) -> Seq<char> {
    if starts_with_delimiter(t) {
        match closing_delimiter(t) {
            Some(k) => t.skip(k + 3),
            None => Seq::empty(),
        }
    } else {
        t
    }
}

/// A line without the carriage return that ended it.
pub open spec fn without_cr(l: Seq<char>) -> Seq<char> {
    if l.len() > 0 && l.last() == '\r' {
        l.drop_last()
    } else {
        l
    }
}

/// The matches of `needle` in `hay` that start before position `k`, left to right, each at
/// every position where it occurs, overlapping ones included; an empty needle matches nowhere.
pub open spec fn line_matches(
    number: nat,
    line: Seq<char>,
    hay: Seq<char>,
    needle: Seq<char>,
    query_bytes: nat,
    k: int,
) -> Seq<MatchView>
    decreases k,
{
    if k <= 0 {
        Seq::empty()
    } else {
        line_matches(number, line, hay, needle, query_bytes, k - 1) + if needle.len() > 0
            && occurs_at(hay, k - 1, needle) {
            seq![
                MatchView {
                    line_number: number,
                    line,
                    start: capped(utf8_width(hay.take(k - 1))),
                    end: capped(capped(utf8_width(hay.take(k - 1))) + query_bytes),
                },
            ]
        } else {
            Seq::empty()
        }
    }
}

/// The text searched in a line: the line itself, or its lowercase form.
pub open spec fn searched(line: Seq<char>, case_sensitive: bool) -> Seq<char> {
    if case_sensitive {
        line
    } else {
        lower_of(line)
    }
}

/// The matches in the given lines, line after line; `first` is the number of the first.
pub open spec fn text_matches(
    ls: Seq<Seq<char>>,
    query: Seq<char>,
    case_sensitive: bool,
) -> Seq<MatchView>
    decreases ls.len(),
{
    if ls.len() == 0 {
        Seq::empty()
    } else {
        let line = without_cr(ls.last());
        let hay = searched(line, case_sensitive);
        text_matches(ls.drop_last(), query, case_sensitive) + line_matches(
            ls.len(),
            line,
            hay,
            searched(query, case_sensitive),
            utf8_width(query),
            hay.len() as int,
        )
    }
}

/// The number of bytes of a character in UTF-8.
fn char_width(c: char) -> (r: usize)
    ensures
        r == utf8_len(c),
{
    let v = c as u32;
    if v < 0x80 {
        1
    } else if v < 0x800 {
        2
    } else if v < 0x10000 {
        3
    } else {
        4
    }
}

/// The number of bytes of `t` in UTF-8, at most `usize::MAX`.
pub(crate) fn width_of(t: &Vec<char>) -> (r: usize)
    ensures
        r == capped(utf8_width(t@)),
{
    let mut w: usize = 0;
    let mut i: usize = 0;
    while i < t.len()
        invariant
            i <= t@.len(),
            w == capped(utf8_width(t@.take(i as int))),
        decreases t@.len() - i,
    {
        let ghost pre = t@.take(i as int);
        w = w.saturating_add(char_width(t[i]));
        i = i + 1;
        assert(t@.take(i as int).drop_last() =~= pre);
    }
    assert(t@.take(t@.len() as int) =~= t@);
    w
}

/// The body of a chapter file: the text after the frontmatter, or all of it where there is
/// none; empty where the frontmatter is not closed.
pub fn chapter_body(content: &str) -> (r: String)
    ensures
        r@ == file_body(content@),
{
    let t = to_chars(content);
    let n = t.len();
    let opens = n >= 3 && t[0] == '-' && t[1] == '-' && t[2] == '-';
    if !opens {
        assert(!starts_with_delimiter(content@)) by {
            if starts_with_delimiter(content@) {
                assert(content@.take(3)[0] == '-');
                assert(content@.take(3)[1] == '-');
                assert(content@.take(3)[2] == '-');
            }
        }
        return content.to_string();
    }
    assert(t@.take(3) =~= seq!['-', '-', '-']);
    assert(starts_with_delimiter(content@));
    let mut k: usize = 3;
    while n - k >= 3
        invariant
            3 <= k <= n,
            n == t@.len(),
            t@ == content@,
            starts_with_delimiter(content@),
            closing_delimiter(t@) == crate::chapter::first_occurrence(t@, seq!['-', '-', '-'], k as int),
        decreases n - k,
    {
        if t[k] == '-' && t[k + 1] == '-' && t[k + 2] == '-' {
            assert(occurs_at(t@, k as int, seq!['-', '-', '-'])) by {
                assert(t@.subrange(k as int, k + 3) =~= seq!['-', '-', '-']);
            }
            let rest = slice_chars(&t, k + 3, n);
            assert(rest@ =~= content@.skip(k + 3));
            assert(starts_with_delimiter(content@));
            assert(crate::chapter::first_occurrence(t@, seq!['-', '-', '-'], k as int) == Some(
                k as int,
            ));
            return string_of(&rest);
        }
        assert(!occurs_at(t@, k as int, seq!['-', '-', '-'])) by {
            if occurs_at(t@, k as int, seq!['-', '-', '-']) {
                assert(t@.subrange(k as int, k + 3)[0] == t@[k as int]);
                assert(t@.subrange(k as int, k + 3)[1] == t@[k + 1]);
                assert(t@.subrange(k as int, k + 3)[2] == t@[k + 2]);
            }
        }
        k = k + 1;
    }
    String::new()
}

/// Every occurrence of `query` in `text`, line by line and left to right, overlapping ones
/// included. Without `case_sensitive` both are compared in lowercase, and the byte offsets
/// are those of the lowercase line; `end` adds the byte length of the query as given.
pub fn search_text(text: &str, query: &str, case_sensitive: bool) -> (r: Vec<SearchMatch>)
    ensures
        match_views(r@) == text_matches(lines(text@), query@, case_sensitive),
{
    let t = to_chars(text);
    let ls = split_lines(&t);
    let qv = to_chars(query);
    let query_bytes = width_of(&qv);
    let needle_text = if case_sensitive {
        query.to_string()
    } else {
        lowercase(query)
    };
    let needle = to_chars(needle_text.as_str());
    let mut out: Vec<SearchMatch> = Vec::new();
    let mut li: usize = 0;
    while li < ls.len()
        invariant
            li <= ls@.len(),
            views(ls@) == lines(text@),
            query_bytes == capped(utf8_width(query@)),
            needle@ == searched(query@, case_sensitive),
            match_views(out@) == text_matches(views(ls@).take(li as int), query@, case_sensitive),
        decreases ls@.len() - li,
    {
        let raw = &ls[li];
        let line = if raw.len() > 0 && raw[raw.len() - 1] == '\r' {
            slice_chars(raw, 0, raw.len() - 1)
        } else {
            slice_chars(raw, 0, raw.len())
        };
        assert(line@ =~= without_cr(raw@));
        let line_text = string_of(&line);
        let hay_text = if case_sensitive {
            line_text.clone()
        } else {
            lowercase(line_text.as_str())
        };
        let hay = to_chars(hay_text.as_str());
        let ghost before = match_views(out@);
        let number = li + 1;
        let mut w: usize = 0;
        let mut i: usize = 0;
        while i < hay.len()
            invariant
                i <= hay@.len(),
                number == li + 1,
                line_text@ == line@,
                hay@ == searched(line@, case_sensitive),
                w == capped(utf8_width(hay@.take(i as int))),
                query_bytes == capped(utf8_width(query@)),
                needle@ == searched(query@, case_sensitive),
                match_views(out@) == before + line_matches(
                    (li + 1) as nat,
                    line@,
                    hay@,
                    needle@,
                    utf8_width(query@),
                    i as int,
                ),
            decreases hay@.len() - i,
        {
            let ghost prev = match_views(out@);
            if needle.len() > 0 && occurs(&hay, i, &needle) {
                let m = SearchMatch {
                    line_number: number,
                    line_content: line_text.clone(),
                    start: w,
                    end: w.saturating_add(query_bytes),
                };
                out.push(m);
                assert(match_views(out@) =~= prev.push(m.view()));
            } else {
                assert(match_views(out@) =~= prev + Seq::<MatchView>::empty());
            }
            let ghost pre = hay@.take(i as int);
            w = w.saturating_add(char_width(hay[i]));
            i = i + 1;
            assert(hay@.take(i as int).drop_last() =~= pre);
        }
        let ghost pre = views(ls@).take(li as int);
        li = li + 1;
        assert(views(ls@).take(li as int).drop_last() =~= pre);
        assert(views(ls@).take(li as int).last() == ls@[li - 1]@);
    }
    assert(views(ls@).take(ls@.len() as int) =~= views(ls@));
    out
}

/// The search result of one chapter file, or `None` where the query does not occur in the
/// body after its frontmatter.
pub fn search_chapter(
    chapter_id: &str,
    chapter_title: &str,
    file_text: &str,
    query: &str,
    case_sensitive: bool,
) -> (r: Option<SearchResult>)
    ensures
        ({
            let found = text_matches(lines(file_body(file_text@)), query@, case_sensitive);
            &&& found.len() == 0 ==> r is None
            &&& found.len() > 0 ==> (r matches Some(s) && s.chapter_id@ == chapter_id@
                && s.chapter_title@ == chapter_title@ && match_views(s.matches@) == found)
        }),
{
    let body = chapter_body(file_text);
    let matches = search_text(body.as_str(), query, case_sensitive);
    if matches.len() == 0 {
        None
    } else {
        Some(
            SearchResult {
                chapter_id: chapter_id.to_string(),
                chapter_title: chapter_title.to_string(),
                matches,
            },
        )
    }
}

} // verus!
