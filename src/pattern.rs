use vstd::prelude::*;
use vstd::string::StrSliceExecFns;

verus! {

/// Glob matching over `/`-separated relative paths, case-sensitive:
/// `**` matches any run of characters, `*` any run without `/`, `?` any
/// single character, and every other character itself.
pub open spec fn glob(p: Seq<char>, s: Seq<char>) -> bool
    decreases p.len() + s.len(),
{
    if p.len() == 0 {
        s.len() == 0
    } else if p[0] == '*' && p.len() >= 2 && p[1] == '*' {
        glob(p.skip(2), s) || (s.len() > 0 && glob(p, s.skip(1)))
    } else if p[0] == '*' {
        glob(p.skip(1), s) || (s.len() > 0 && s[0] != '/' && glob(p, s.skip(1)))
    } else if p[0] == '?' {
        s.len() > 0 && glob(p.skip(1), s.skip(1))
    } else {
        s.len() > 0 && s[0] == p[0] && glob(p.skip(1), s.skip(1))
    }
}

/// Whether `path` is taken under a pattern list: with no list every path is,
/// with a list those that match at least one of its patterns (so an empty
/// list takes none).
pub open spec fn selected(patterns: Option<Seq<Seq<char>>>, path: Seq<char>) -> bool {
    match patterns {
        None => true,
        Some(ps) => matches_any(ps, path),
    }
}

/// `path` matches at least one pattern of `ps`.
pub open spec fn matches_any(ps: Seq<Seq<char>>, path: Seq<char>) -> bool {
    exists|k: int| 0 <= k < ps.len() && glob(#[trigger] ps[k], path)
}

/// The patterns of an optional list, as character sequences.
pub open spec fn pattern_list(patterns: Option<Vec<String>>) -> Option<Seq<Seq<char>>> {
    match patterns {
        None => None,
        Some(v) => Some(v@.map_values(|s: String| s@)),
    }
}

/// The paths of `paths` that a pattern list takes, in their order.
pub open spec fn filtered(paths: Seq<Seq<char>>, patterns: Option<Seq<Seq<char>>>) -> Seq<Seq<char>>
    decreases paths.len(),
{
    if paths.len() == 0 {
        Seq::empty()
    } else if selected(patterns, paths.last()) {
        filtered(paths.drop_last(), patterns).push(paths.last())
    } else {
        filtered(paths.drop_last(), patterns)
    }
}

fn chars_of(s: &str) -> (r: Vec<char>)
    ensures
        r@ == s@,
{
    let n = s.unicode_len();
    let mut r: Vec<char> = Vec::new();
    let mut i: usize = 0;
    while i < n
        invariant
            n == s@.len(),
            i <= n,
            r@ == s@.subrange(0, i as int),
        decreases n - i,
    {
        r.push(s.get_char(i));
        assert(r@ =~= s@.subrange(0, i + 1));
        i = i + 1;
    }
    assert(s@.subrange(0, n as int) =~= s@);
    r
}

/// One step of `glob` on the suffixes of `p` from `k` and of `s` from `j`.
proof fn lemma_glob_step(p: Seq<char>, s: Seq<char>, k: int, j: int)
    requires
        0 <= k <= p.len(),
        0 <= j <= s.len(),
    ensures
        k == p.len() ==> glob(p.skip(k), s.skip(j)) == (j == s.len()),
        k < p.len() ==> glob(p.skip(k), s.skip(j)) == if p[k] == '*' && k + 1 < p.len() && p[k
            + 1] == '*' {
            glob(p.skip(k + 2), s.skip(j)) || (j < s.len() && glob(p.skip(k), s.skip(j + 1)))
        } else if p[k] == '*' {
            glob(p.skip(k + 1), s.skip(j)) || (j < s.len() && s[j] != '/' && glob(
                p.skip(k),
                s.skip(j + 1),
            ))
        } else if p[k] == '?' {
            j < s.len() && glob(p.skip(k + 1), s.skip(j + 1))
        } else {
            j < s.len() && s[j] == p[k] && glob(p.skip(k + 1), s.skip(j + 1))
        },
{
    let ps = p.skip(k);
    let ss = s.skip(j);
    if k < p.len() {
        assert(ps.skip(1) =~= p.skip(k + 1));
    }
    if k + 2 <= p.len() {
        assert(ps.skip(2) =~= p.skip(k + 2));
    }
    if j < s.len() {
        assert(ss.skip(1) =~= s.skip(j + 1));
    }
}

/// Matches by filling, for each suffix of the pattern from the last to the
/// first, the row of answers for every suffix of the path: quadratic time
/// whatever wildcards the pattern holds. A row holds the answers for the
/// non-empty suffixes; the answer for the empty one is kept beside it.
fn glob_table(p: &Vec<char>, s: &Vec<char>) -> (r: bool)
    ensures
        r == glob(p@, s@),
{
    let np = p.len();
    let ns = s.len();
    let ghost pv = p@;
    let ghost sv = s@;
    let mut cur: Vec<bool> = Vec::new();
    let mut j: usize = 0;
    while j < ns
        invariant
            ns == sv.len(),
            np == pv.len(),
            pv == p@,
            sv == s@,
            j <= ns,
            cur@.len() == j,
            forall|q: int| 0 <= q < j ==> cur@[q] == glob(pv.skip(np as int), sv.skip(q)),
        decreases ns - j,
    {
        proof {
            lemma_glob_step(pv, sv, np as int, j as int);
        }
        cur.push(false);
        j = j + 1;
    }
    proof {
        lemma_glob_step(pv, sv, np as int, ns as int);
    }
    let mut cur_end: bool = true;
    let mut prev: Vec<bool> = cur.clone();
    let mut prev_end: bool = true;
    let mut i: usize = np;
    while i > 0
        invariant
            ns == sv.len(),
            np == pv.len(),
            pv == p@,
            sv == s@,
            i <= np,
            cur@.len() == ns,
            forall|q: int| 0 <= q < ns ==> cur@[q] == glob(pv.skip(i as int), sv.skip(q)),
            cur_end == glob(pv.skip(i as int), sv.skip(ns as int)),
            prev@.len() == ns,
            i + 1 <= np ==> forall|q: int|
                0 <= q < ns ==> prev@[q] == glob(pv.skip(i + 1), sv.skip(q)),
            i + 1 <= np ==> prev_end == glob(pv.skip(i + 1), sv.skip(ns as int)),
        decreases i,
    {
        let k = i - 1;
        let double = p[k] == '*' && k + 1 < np && p[k + 1] == '*';
        let star = p[k] == '*';
        let any = p[k] == '?';
        proof {
            lemma_glob_step(pv, sv, k as int, ns as int);
        }
        let row_end: bool = if double {
            prev_end
        } else if star {
            cur_end
        } else {
            false
        };
        let mut row: Vec<bool> = cur.clone();
        let mut j: usize = ns;
        while j > 0
            invariant
                ns == sv.len(),
                np == pv.len(),
                pv == p@,
                sv == s@,
                k + 1 == i,
                i <= np,
                j <= ns,
                double == (pv[k as int] == '*' && k + 1 < np && pv[k + 1] == '*'),
                star == (pv[k as int] == '*'),
                any == (pv[k as int] == '?'),
                row@.len() == ns,
                cur@.len() == ns,
                prev@.len() == ns,
                forall|q: int| 0 <= q < ns ==> cur@[q] == glob(pv.skip(i as int), sv.skip(q)),
                cur_end == glob(pv.skip(i as int), sv.skip(ns as int)),
                i + 1 <= np ==> forall|q: int|
                    0 <= q < ns ==> prev@[q] == glob(pv.skip(i + 1), sv.skip(q)),
                i + 1 <= np ==> prev_end == glob(pv.skip(i + 1), sv.skip(ns as int)),
                row_end == glob(pv.skip(k as int), sv.skip(ns as int)),
                forall|q: int| j <= q < ns ==> row@[q] == glob(pv.skip(k as int), sv.skip(q)),
            decreases j,
        {
            j = j - 1;
            proof {
                lemma_glob_step(pv, sv, k as int, j as int);
            }
            let row_next: bool = if j + 1 < ns {
                row[j + 1]
            } else {
                row_end
            };
            let cur_next: bool = if j + 1 < ns {
                cur[j + 1]
            } else {
                cur_end
            };
            let v = if double {
                prev[j] || row_next
            } else if star {
                cur[j] || (s[j] != '/' && row_next)
            } else if any {
                cur_next
            } else {
                s[j] == p[k] && cur_next
            };
            row[j] = v;
        }
        prev = cur;
        prev_end = cur_end;
        cur = row;
        cur_end = row_end;
        i = k;
    }
    assert(pv.skip(0) =~= pv);
    assert(sv.skip(0) =~= sv);
    if ns == 0 {
        cur_end
    } else {
        cur[0]
    }
}

/// Whether `path` matches the glob `pattern`.
pub fn glob_match(pattern: &str, path: &str) -> (r: bool)
    ensures
        r == glob(pattern@, path@),
{
    let p = chars_of(pattern);
    let s = chars_of(path);
    glob_table(&p, &s)
}

/// Whether `path` is taken under `patterns` (none: every path).
pub fn is_selected(patterns: &Option<Vec<String>>, path: &str) -> (r: bool)
    ensures
        r == selected(pattern_list(*patterns), path@),
{
    match patterns {
        None => true,
        Some(v) => {
            let ghost ps = v@.map_values(|s: String| s@);
            assert(pattern_list(*patterns) == Some(ps));
            let mut k: usize = 0;
            while k < v.len()
                invariant
                    ps == v@.map_values(|s: String| s@),
                    pattern_list(*patterns) == Some(ps),
                    k <= v@.len(),
                    forall|q: int| 0 <= q < k ==> !glob(#[trigger] ps[q], path@),
                decreases v@.len() - k,
            {
                if glob_match(v[k].as_str(), path) {
                    assert(ps[k as int] == v@[k as int]@);
                    assert(ps.len() == v@.len());
                    assert(0 <= k < ps.len() && glob(ps[k as int], path@));
                    assert(matches_any(ps, path@));
                    return true;
                }
                assert(ps[k as int] == v@[k as int]@);
                k = k + 1;
            }
            false
        },
    }
}

/// The paths that `patterns` takes, in the order given.
pub fn filter_paths(paths: &Vec<String>, patterns: &Option<Vec<String>>) -> (r: Vec<String>)
    ensures
        r@.map_values(|s: String| s@) == filtered(
            paths@.map_values(|s: String| s@),
            pattern_list(*patterns),
        ),
{
    let ghost all = paths@.map_values(|s: String| s@);
    let mut r: Vec<String> = Vec::new();
    let mut i: usize = 0;
    while i < paths.len()
        invariant
            all == paths@.map_values(|s: String| s@),
            i <= paths@.len(),
            r@.map_values(|s: String| s@) == filtered(all.subrange(0, i as int), pattern_list(*patterns)),
        decreases paths@.len() - i,
    {
        let ghost sub = all.subrange(0, i + 1);
        assert(sub.drop_last() =~= all.subrange(0, i as int));
        assert(sub.last() == paths@[i as int]@);
        if is_selected(patterns, paths[i].as_str()) {
            let c = paths[i].clone();
            r.push(c);
            assert(r@.map_values(|s: String| s@) =~= filtered(sub, pattern_list(*patterns)));
        }
        i = i + 1;
    }
    assert(all.subrange(0, paths@.len() as int) =~= all);
    r
}

/// A pattern with no wildcard matches exactly itself.
pub proof fn lemma_literal_glob(x: Seq<char>, s: Seq<char>)
    requires
        forall|i: int| 0 <= i < x.len() ==> #[trigger] x[i] != '*' && x[i] != '?',
    ensures
        glob(x, s) <==> s == x,
    decreases x.len(),
{
    if x.len() > 0 {
        let x1 = x.skip(1);
        assert forall|i: int| 0 <= i < x1.len() implies #[trigger] x1[i] != '*' && x1[i] != '?' by {
            assert(x1[i] == x[i + 1]);
        }
        if s.len() > 0 {
            lemma_literal_glob(x1, s.skip(1));
            if s == x {
                assert(s.skip(1) =~= x1);
            }
            if s[0] == x[0] && s.skip(1) == x1 {
                assert(s =~= seq![s[0]] + s.skip(1));
                assert(x =~= seq![x[0]] + x1);
            }
        }
    } else {
        if s.len() == 0 {
            assert(s =~= x);
        }
    }
}

/// `*` followed by a literal suffix matches only paths that end with it.
pub proof fn lemma_star_suffix(x: Seq<char>, s: Seq<char>)
    requires
        x.len() > 0,
        forall|i: int| 0 <= i < x.len() ==> #[trigger] x[i] != '*' && x[i] != '?',
        glob(seq!['*'] + x, s),
    ensures
        s.len() >= x.len(),
        s.skip(s.len() - x.len()) == x,
    decreases s.len(),
{
    let p = seq!['*'] + x;
    assert(p[1] == x[0]);
    assert(p.skip(1) =~= x);
    lemma_literal_glob(x, s);
    if !glob(x, s) {
        lemma_star_suffix(x, s.skip(1));
        assert(s.skip(1).skip(s.skip(1).len() - x.len()) =~= s.skip(s.len() - x.len()));
    } else {
        assert(s.skip(0) =~= s);
    }
}

proof fn lemma_filtered_all(paths: Seq<Seq<char>>)
    ensures
        filtered(paths, None) == paths,
    decreases paths.len(),
{
    if paths.len() > 0 {
        lemma_filtered_all(paths.drop_last());
        assert(paths.drop_last().push(paths.last()) =~= paths);
    }
}

proof fn lemma_filtered_none(paths: Seq<Seq<char>>)
    ensures
        filtered(paths, Some(Seq::empty())) == Seq::<Seq<char>>::empty(),
    decreases paths.len(),
{
    if paths.len() > 0 {
        lemma_filtered_none(paths.drop_last());
    }
}

proof fn lemma_filtered_selected(paths: Seq<Seq<char>>, patterns: Option<Seq<Seq<char>>>)
    ensures
        forall|k: int|
            0 <= k < filtered(paths, patterns).len() ==> selected(
                patterns,
                #[trigger] filtered(paths, patterns)[k],
            ),
    decreases paths.len(),
{
    if paths.len() > 0 {
        let rest = filtered(paths.drop_last(), patterns);
        lemma_filtered_selected(paths.drop_last(), patterns);
        if selected(patterns, paths.last()) {
            let f = rest.push(paths.last());
            assert forall|k: int| 0 <= k < f.len() implies selected(patterns, #[trigger] f[k]) by {
                if k < rest.len() {
                    assert(f[k] == rest[k]);
                }
            }
        }
    }
}

/// Pattern filtering: under `["*.txt"]` only paths ending in `.txt` are
/// taken; under an empty list none is; with no list every path is.
pub proof fn lemma_pattern_filtering(paths: Seq<Seq<char>>)
    ensures
        forall|k: int|
            0 <= k < filtered(paths, Some(seq!["*.txt"@])).len() ==> {
                let q = #[trigger] filtered(paths, Some(seq!["*.txt"@]))[k];
                q.len() >= 4 && q.skip(q.len() - 4) == ".txt"@
            },
        filtered(paths, Some(Seq::empty())) == Seq::<Seq<char>>::empty(),
        filtered(paths, None) == paths,
{
    reveal_strlit("*.txt");
    reveal_strlit(".txt");
    let pats = seq!["*.txt"@];
    let x = ".txt"@;
    assert("*.txt"@ =~= seq!['*'] + x);
    lemma_filtered_selected(paths, Some(pats));
    assert forall|k: int| 0 <= k < filtered(paths, Some(pats)).len() implies {
        let q = #[trigger] filtered(paths, Some(pats))[k];
        q.len() >= 4 && q.skip(q.len() - 4) == x
    } by {
        let q = filtered(paths, Some(pats))[k];
        assert(selected(Some(pats), q));
        assert(matches_any(pats, q));
        let w = choose|w: int| 0 <= w < pats.len() && glob(#[trigger] pats[w], q);
        assert(w == 0);
        lemma_star_suffix(x, q);
    }
    lemma_filtered_none(paths);
    lemma_filtered_all(paths);
}

} // verus!
