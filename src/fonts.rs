use vstd::prelude::*;

use crate::search::{lower_of, lowercase};
use crate::text::{slice_chars, string_of, to_chars};

verus! {

/// A font found on the system or in the project.
#[derive(Clone, Debug)]
pub struct FontInfo {
    pub name: String,
    pub path: String,
    pub source: String,
}

/// The last segment of a path, after its last `/`.
pub open spec fn last_segment(p: Seq<char>) -> Seq<char>
    decreases p.len(),
{
    if p.len() == 0 {
        p
    } else if p.last() == '/' {
        Seq::empty()
    } else {
        last_segment(p.drop_last()).push(p.last())
    }
}

/// The part of a file name after its last `.`, unless that dot begins the name or there is
/// none.
pub open spec fn after_last_dot(name: Seq<char>) -> Option<Seq<char>>
    decreases name.len(),
{
    if name.len() == 0 {
        None
    } else if name.last() == '.' {
        if name.len() == 1 {
            None
        } else {
            Some(Seq::empty())
        }
    } else {
        match after_last_dot(name.drop_last()) {
            Some(e) => Some(e.push(name.last())),
            None => None,
        }
    }
}

/// The extension of a file name; the name `..` has none.
pub open spec fn extension(name: Seq<char>) -> Option<Seq<char>> {
    if name == seq!['.', '.'] {
        None
    } else {
        after_last_dot(name)
    }
}

/// Whether a lowercase extension is one of a font file.
pub open spec fn font_extension(e: Seq<char>) -> bool {
    e == seq!['t', 't', 'f'] || e == seq!['o', 't', 'f'] || e == seq!['w', 'o', 'f', 'f'] || e
        == seq!['w', 'o', 'f', 'f', '2']
}

/// Whether `a` comes before `b` in the order of their characters' code points.
pub open spec fn lex_lt(a: Seq<char>, b: Seq<char>) -> bool
    decreases a.len(),
{
    if b.len() == 0 {
        false
    } else if a.len() == 0 {
        true
    } else if a[0] != b[0] {
        a[0] < b[0]
    } else {
        lex_lt(a.skip(1), b.skip(1))
    }
}

/// The key by which fonts are ordered and told apart: the lowercase name.
pub open spec fn font_key(f: FontInfo) -> Seq<char> {
    lower_of(f.name@)
}

/// A font as plain values.
pub open spec fn font_view(f: FontInfo) -> (Seq<char>, Seq<char>, Seq<char>) {
    (f.name@, f.path@, f.source@)
}

/// Whether `fonts[j]` is the first of the fonts with its key.
pub open spec fn first_with_key(fonts: Seq<FontInfo>, j: int) -> bool {
    forall|i: int| 0 <= i < j ==> font_key(#[trigger] fonts[i]) != font_key(fonts[j])
}

/// Whether a path names a font file: its extension, in lowercase, is `ttf`, `otf`, `woff`
/// or `woff2`.
pub fn is_font_file(path: &str) -> (r: bool)
    ensures
        r == match extension(last_segment(path@)) {
            Some(e) => font_extension(lower_of(e)),
            None => false,
        },
{
    let p = to_chars(path);
    let mut start: usize = p.len();
    assert(p@.take(start as int) =~= p@);
    assert(p@ + p@.skip(start as int) =~= p@);
    while start > 0 && p[start - 1] != '/'
        invariant
            start <= p@.len(),
            last_segment(p@) == last_segment(p@.take(start as int)) + p@.skip(start as int),
        decreases start,
    {
        let ghost t = p@.take(start as int);
        assert(t.drop_last() =~= p@.take(start - 1));
        assert(p@.skip(start - 1) =~= seq![t.last()] + p@.skip(start as int));
        assert(last_segment(t) == last_segment(t.drop_last()).push(t.last()));
        assert(last_segment(t.drop_last()).push(t.last()) + p@.skip(start as int)
            =~= last_segment(t.drop_last()) + (seq![t.last()] + p@.skip(start as int)));
        start = start - 1;
    }
    if start > 0 {
        assert(last_segment(p@.take(start as int)) == Seq::<char>::empty());
    }
    assert(last_segment(p@) =~= p@.skip(start as int));
    let name = slice_chars(&p, start, p.len());
    assert(name@ =~= last_segment(p@));
    match extension_of(&name) {
        None => false,
        Some(e) => {
            let es = string_of(&e);
            let lower = lowercase(es.as_str());
            let l = to_chars(lower.as_str());
            is_font_ext(&l)
        },
    }
}

/// Whether `e` is one of the font extensions.
fn is_font_ext(e: &Vec<char>) -> (r: bool)
    ensures
        r == font_extension(e@),
{
    let n = e.len();
    let r = if n == 3 {
        (e[0] == 't' && e[1] == 't' && e[2] == 'f') || (e[0] == 'o' && e[1] == 't' && e[2] == 'f')
    } else if n == 4 {
        e[0] == 'w' && e[1] == 'o' && e[2] == 'f' && e[3] == 'f'
    } else if n == 5 {
        e[0] == 'w' && e[1] == 'o' && e[2] == 'f' && e[3] == 'f' && e[4] == '2'
    } else {
        false
    };
    proof {
        if n == 3 {
            assert(e@ =~= seq![e@[0], e@[1], e@[2]]);
        } else if n == 4 {
            assert(e@ =~= seq![e@[0], e@[1], e@[2], e@[3]]);
        } else if n == 5 {
            assert(e@ =~= seq![e@[0], e@[1], e@[2], e@[3], e@[4]]);
        }
    }
    r
}

/// The extension of a file name.
fn extension_of(name: &Vec<char>) -> (r: Option<Vec<char>>)
    ensures
        r matches Some(e) ==> extension(name@) == Some(e@),
        r is None ==> extension(name@) is None,
{
    let n = name.len();
    if n == 2 && name[0] == '.' && name[1] == '.' {
        assert(name@ =~= seq!['.', '.']);
        return None;
    }
    assert(name@ != seq!['.', '.']) by {
        if name@ == seq!['.', '.'] {
            assert(name@[0] == '.' && name@[1] == '.');
        }
    }
    let mut k: usize = n;
    assert(name@.take(n as int) =~= name@);
    assert(forall|e: Seq<char>| e + name@.skip(n as int) =~= e);
    while k > 0 && name[k - 1] != '.'
        invariant
            k <= n == name@.len(),
            after_last_dot(name@) == match after_last_dot(name@.take(k as int)) {
                Some(e) => Some(e + name@.skip(k as int)),
                None => None,
            },
        decreases k,
    {
        let ghost t = name@.take(k as int);
        assert(t.drop_last() =~= name@.take(k - 1));
        assert(name@.skip(k - 1) =~= seq![t.last()] + name@.skip(k as int));
        proof {
            match after_last_dot(t.drop_last()) {
                Some(e) => {
                    assert(e.push(t.last()) + name@.skip(k as int) =~= e + name@.skip(k - 1));
                },
                None => {},
            }
        }
        k = k - 1;
    }
    if k == 0 {
        assert(name@.take(0) =~= Seq::<char>::empty());
        return None;
    }
    if k == 1 {
        assert(name@.take(1) =~= seq!['.']);
        return None;
    }
    let rest = slice_chars(name, k, n);
    assert(rest@ =~= Seq::<char>::empty() + name@.skip(k as int));
    Some(rest)
}

/// A font's display name from its file stem: dashes and underscores become spaces.
pub fn font_name(stem: &str) -> (r: String)
    ensures
        r@ == stem@.map_values(|c: char| if c == '-' || c == '_' { ' ' } else { c }),
{
    let s = to_chars(stem);
    let mut out: Vec<char> = Vec::new();
    let mut i: usize = 0;
    while i < s.len()
        invariant
            i <= s@.len(),
            out@ == s@.take(i as int).map_values(
                |c: char|
                    if c == '-' || c == '_' {
                        ' '
                    } else {
                        c
                    },
            ),
        decreases s@.len() - i,
    {
        let c = s[i];
        out.push(if c == '-' || c == '_' { ' ' } else { c });
        i = i + 1;
        assert(out@ =~= s@.take(i as int).map_values(
            |c: char|
                if c == '-' || c == '_' {
                    ' '
                } else {
                    c
                },
        ));
    }
    assert(s@.take(s@.len() as int) =~= s@);
    string_of(&out)
}

proof fn lemma_lex_total(a: Seq<char>, b: Seq<char>)
    ensures
        a == b || lex_lt(a, b) || lex_lt(b, a),
        !(lex_lt(a, b) && lex_lt(b, a)),
        !lex_lt(a, a),
    decreases a.len(),
{
    if a.len() > 0 && b.len() > 0 {
        lemma_lex_total(a.skip(1), b.skip(1));
        if a[0] == b[0] && a.skip(1) == b.skip(1) {
            assert(a =~= seq![a[0]] + a.skip(1));
            assert(b =~= seq![b[0]] + b.skip(1));
        }
    } else if a.len() == 0 && b.len() == 0 {
        assert(a =~= b);
    }
    if a.len() > 0 {
        lemma_lex_total(a.skip(1), a.skip(1));
    }
}

proof fn lemma_lex_trans(a: Seq<char>, b: Seq<char>, c: Seq<char>)
    requires
        lex_lt(a, b),
        lex_lt(b, c),
    ensures
        lex_lt(a, c),
    decreases a.len(),
{
    if a.len() > 0 && a[0] == b[0] && b[0] == c[0] {
        lemma_lex_trans(a.skip(1), b.skip(1), c.skip(1));
    }
}

/// Compares two texts by their characters' code points: `-1`, `0` or `1`.
fn compare(a: &Vec<char>, b: &Vec<char>) -> (r: i8)
    ensures
        r == 0 <==> a@ == b@,
        r < 0 <==> lex_lt(a@, b@),
        r > 0 <==> lex_lt(b@, a@),
{
    let mut i: usize = 0;
    assert(a@.skip(0) =~= a@ && b@.skip(0) =~= b@);
    assert(a@.take(0) =~= b@.take(0));
    while i < a.len() && i < b.len() && a[i] == b[i]
        invariant
            i <= a@.len(),
            i <= b@.len(),
            a@.take(i as int) == b@.take(i as int),
            lex_lt(a@, b@) == lex_lt(a@.skip(i as int), b@.skip(i as int)),
            lex_lt(b@, a@) == lex_lt(b@.skip(i as int), a@.skip(i as int)),
        decreases a@.len() - i,
    {
        assert(a@.skip(i as int).skip(1) =~= a@.skip(i + 1));
        assert(b@.skip(i as int).skip(1) =~= b@.skip(i + 1));
        assert(a@.take(i + 1) =~= a@.take(i as int).push(a@[i as int]));
        assert(b@.take(i + 1) =~= b@.take(i as int).push(b@[i as int]));
        i = i + 1;
    }
    proof {
        lemma_lex_total(a@, b@);
    }
    if i < a.len() && i < b.len() {
        assert(a@.skip(i as int)[0] == a@[i as int]);
        assert(b@.skip(i as int)[0] == b@[i as int]);
        assert(a@ != b@) by {
            if a@ == b@ {
                assert(a@[i as int] == b@[i as int]);
            }
        }
        if a[i] < b[i] {
            -1
        } else {
            1
        }
    } else if i < b.len() {
        assert(a@ =~= a@.take(i as int));
        assert(a@ != b@);
        assert(a@.skip(i as int).len() == 0);
        -1
    } else if i < a.len() {
        assert(b@ =~= b@.take(i as int));
        assert(a@ != b@);
        assert(b@.skip(i as int).len() == 0);
        1
    } else {
        assert(a@ =~= a@.take(i as int));
        assert(b@ =~= b@.take(i as int));
        0
    }
}

/// Whether `f` is a copy of the first of the fonts with its key.
pub open spec fn copies_first(fonts: Seq<FontInfo>, f: FontInfo) -> bool {
    exists|j: int| 0 <= j < fonts.len() && font_view(f) == font_view(#[trigger] fonts[j]) && first_with_key(fonts, j)
}

/// Whether some font of `r` has the key `k`.
pub open spec fn keeps_key(r: Seq<FontInfo>, k: Seq<char>) -> bool {
    exists|i: int| 0 <= i < r.len() && font_key(#[trigger] r[i]) == k
}

/// Whether the texts are in strictly increasing order.
pub open spec fn strictly_sorted(ks: Seq<Seq<char>>) -> bool {
    forall|a: int, b: int| 0 <= a < b < ks.len() ==> lex_lt(#[trigger] ks[a], #[trigger] ks[b])
}

proof fn lemma_insert_sorted(ks: Seq<Seq<char>>, p: int, k: Seq<char>)
    requires
        strictly_sorted(ks),
        0 <= p <= ks.len(),
        forall|i: int| 0 <= i < p ==> lex_lt(#[trigger] ks[i], k),
        p < ks.len() ==> lex_lt(k, ks[p]),
    ensures
        strictly_sorted(ks.insert(p, k)),
{
    let n = ks.insert(p, k);
    assert forall|a: int, b: int| 0 <= a < b < n.len() implies lex_lt(#[trigger] n[a], #[trigger] n[b]) by {
        if b < p {
            assert(n[a] == ks[a] && n[b] == ks[b]);
        } else if b == p {
            assert(n[a] == ks[a]);
        } else if a < p {
            assert(n[a] == ks[a] && n[b] == ks[b - 1]);
            if b - 1 > p {
                lemma_lex_trans(k, ks[p], ks[b - 1]);
            }
            lemma_lex_trans(ks[a], k, ks[b - 1]);
        } else if a == p {
            assert(n[b] == ks[b - 1]);
            if b - 1 > p {
                lemma_lex_trans(k, ks[p], ks[b - 1]);
            }
        } else {
            assert(n[a] == ks[a - 1] && n[b] == ks[b - 1]);
        }
    }
}

/// The views of a list of keys.
spec fn key_views(v: Seq<Vec<char>>) -> Seq<Seq<char>> {
    v.map_values(|k: Vec<char>| k@)
}

/// Where `key` belongs among sorted keys, and whether it is there already.
fn position(keys: &Vec<Vec<char>>, key: &Vec<char>) -> (r: (usize, bool))
    requires
        strictly_sorted(key_views(keys@)),
    ensures
        r.0 <= keys@.len(),
        forall|i: int| 0 <= i < r.0 ==> lex_lt(#[trigger] key_views(keys@)[i], key@),
        r.1 ==> r.0 < keys@.len() && key_views(keys@)[r.0 as int] == key@,
        !r.1 ==> r.0 < keys@.len() ==> lex_lt(key@, key_views(keys@)[r.0 as int]),
        !r.1 ==> forall|i: int| 0 <= i < keys@.len() ==> #[trigger] key_views(keys@)[i] != key@,
{
    let ghost ks = key_views(keys@);
    let mut p: usize = 0;
    while p < keys.len()
        invariant
            p <= keys@.len(),
            ks == key_views(keys@),
            strictly_sorted(ks),
            forall|i: int| 0 <= i < p ==> lex_lt(#[trigger] ks[i], key@),
        decreases keys@.len() - p,
    {
        let c = compare(&keys[p], key);
        if c >= 0 {
            proof {
                lemma_lex_total(ks[p as int], key@);
                if c > 0 {
                    assert forall|i: int| 0 <= i < keys@.len() implies #[trigger] ks[i] != key@ by {
                        lemma_lex_total(ks[i], key@);
                        if i > p {
                            assert(lex_lt(ks[p as int], ks[i]));
                            lemma_lex_trans(key@, ks[p as int], ks[i]);
                            lemma_lex_total(key@, ks[i]);
                        }
                    }
                }
            }
            return (p, c == 0);
        }
        p = p + 1;
    }
    proof {
        assert forall|i: int| 0 <= i < keys@.len() implies #[trigger] ks[i] != key@ by {
            lemma_lex_total(ks[i], key@);
        }
    }
    (p, false)
}

/// What holds after the first `j` fonts are placed: the kept fonts with their keys in
/// strictly increasing order; `src` gives for each kept font the index of the font it copies,
/// the first given with its key; `pos` gives for each font seen where its key is kept.
spec fn placed(
    out: Seq<FontInfo>,
    keys: Seq<Seq<char>>,
    fonts: Seq<FontInfo>,
    j: int,
    src: Seq<int>,
    pos: Seq<int>,
) -> bool {
    &&& 0 <= j <= fonts.len()
    &&& keys.len() == out.len()
    &&& src.len() == out.len()
    &&& pos.len() == j
    &&& forall|i: int| 0 <= i < out.len() ==> #[trigger] keys[i] == font_key(out[i])
    &&& strictly_sorted(keys)
    &&& forall|i: int|
        0 <= i < out.len() ==> 0 <= #[trigger] src[i] < j && font_view(out[i]) == font_view(
            fonts[src[i]],
        ) && first_with_key(fonts, src[i])
    &&& forall|k: int| 0 <= k < j ==> 0 <= #[trigger] pos[k] < out.len() && keys[pos[k]] == font_key(fonts[k])
}

/// Places the font `fonts[j]`.
#[verifier::rlimit(40)]
fn place(
    out: &mut Vec<FontInfo>,
    keys: &mut Vec<Vec<char>>,
    fonts: &Vec<FontInfo>,
    j: usize,
    Ghost(src): Ghost<Seq<int>>,
    Ghost(pos): Ghost<Seq<int>>,
) -> (r: (Ghost<Seq<int>>, Ghost<Seq<int>>))
    requires
        j < fonts@.len(),
        placed(old(out)@, key_views(old(keys)@), fonts@, j as int, src, pos),
    ensures
        placed(final(out)@, key_views(final(keys)@), fonts@, j + 1, r.0@, r.1@),
{
    let f = &fonts[j];
    let lower = lowercase(f.name.as_str());
    let key = to_chars(lower.as_str());
    assert(key@ == font_key(fonts@[j as int]));
    let (p, found) = position(keys, &key);
    if found {
        let ghost npos = pos.push(p as int);
        assert forall|k: int| 0 <= k < j + 1 implies 0 <= #[trigger] npos[k] < out@.len()
            && key_views(keys@)[npos[k]] == font_key(fonts@[k]) by {
            if k < j {
                assert(npos[k] == pos[k]);
            }
        }
        (Ghost(src), Ghost(npos))
    } else {
        let ghost old_out = out@;
        let ghost old_keys = key_views(keys@);
        let copy = FontInfo { name: f.name.clone(), path: f.path.clone(), source: f.source.clone() };
        proof {
            lemma_insert_sorted(old_keys, p as int, key@);
            assert(first_with_key(fonts@, j as int)) by {
                assert forall|k: int| 0 <= k < j implies font_key(#[trigger] fonts@[k]) != font_key(
                    fonts@[j as int],
                ) by {
                    assert(old_keys[pos[k]] == font_key(fonts@[k]));
                }
            }
        }
        out.insert(p, copy);
        keys.insert(p, key);
        let ghost nkeys = key_views(keys@);
        assert(nkeys =~= old_keys.insert(p as int, key@));
        let ghost nsrc = src.insert(p as int, j as int);
        let ghost npos = Seq::new(
            (j + 1) as nat,
            |k: int|
                if k == j {
                    p as int
                } else if pos[k] >= p {
                    pos[k] + 1
                } else {
                    pos[k]
                },
        );
        assert forall|i: int| 0 <= i < out@.len() implies #[trigger] nkeys[i] == font_key(out@[i]) by {
            if i < p {
                assert(out@[i] == old_out[i] && nkeys[i] == old_keys[i]);
            } else if i > p {
                assert(out@[i] == old_out[i - 1] && nkeys[i] == old_keys[i - 1]);
            }
        }
        assert forall|i: int| 0 <= i < out@.len() implies 0 <= #[trigger] nsrc[i] < j + 1 && font_view(
            out@[i],
        ) == font_view(fonts@[nsrc[i]]) && first_with_key(fonts@, nsrc[i]) by {
            if i < p {
                assert(out@[i] == old_out[i] && nsrc[i] == src[i]);
            } else if i > p {
                assert(out@[i] == old_out[i - 1] && nsrc[i] == src[i - 1]);
            }
        }
        assert forall|k: int| 0 <= k < j + 1 implies 0 <= #[trigger] npos[k] < out@.len()
            && nkeys[npos[k]] == font_key(fonts@[k]) by {
            if k < j {
                if pos[k] >= p {
                    assert(nkeys[pos[k] + 1] == old_keys[pos[k]]);
                } else {
                    assert(nkeys[pos[k]] == old_keys[pos[k]]);
                }
            }
        }
        (Ghost(nsrc), Ghost(npos))
    }
}

/// The fonts ordered by lowercase name, one per name: of fonts whose names differ only in
/// case, the first given is kept.
pub fn sort_fonts(fonts: Vec<FontInfo>) -> (r: Vec<FontInfo>)
    ensures
        forall|i: int, j: int|
            0 <= i < j < r@.len() ==> lex_lt(font_key(#[trigger] r@[i]), font_key(#[trigger] r@[j])),
        forall|i: int| 0 <= i < r@.len() ==> #[trigger] copies_first(fonts@, r@[i]),
        forall|j: int| 0 <= j < fonts@.len() ==> #[trigger] keeps_key(r@, font_key(fonts@[j])),
{
    let mut out: Vec<FontInfo> = Vec::new();
    let mut keys: Vec<Vec<char>> = Vec::new();
    let ghost mut src: Seq<int> = Seq::empty();
    let ghost mut pos: Seq<int> = Seq::empty();
    let mut j: usize = 0;
    assert(key_views(keys@) =~= Seq::<Seq<char>>::empty());
    while j < fonts.len()
        invariant
            placed(out@, key_views(keys@), fonts@, j as int, src, pos),
        decreases fonts@.len() - j,
    {
        let (Ghost(s2), Ghost(p2)) = place(&mut out, &mut keys, &fonts, j, Ghost(src), Ghost(pos));
        proof {
            src = s2;
            pos = p2;
        }
        j = j + 1;
    }
    let ghost ks = key_views(keys@);
    assert forall|a: int, b: int| 0 <= a < b < out@.len() implies lex_lt(
        font_key(#[trigger] out@[a]),
        font_key(#[trigger] out@[b]),
    ) by {
        assert(ks[a] == font_key(out@[a]));
        assert(ks[b] == font_key(out@[b]));
    }
    assert forall|i: int| 0 <= i < out@.len() implies #[trigger] copies_first(fonts@, out@[i]) by {
        let w = src[i];
        assert(0 <= w < fonts@.len());
        assert(font_view(out@[i]) == font_view(fonts@[w]) && first_with_key(fonts@, w));
    }
    assert forall|k: int| 0 <= k < fonts@.len() implies #[trigger] keeps_key(out@, font_key(fonts@[k])) by {
        let w = pos[k];
        assert(0 <= w < out@.len());
        assert(ks[w] == font_key(out@[w]));
        assert(font_key(out@[w]) == font_key(fonts@[k]));
    }
    out
}

} // verus!
