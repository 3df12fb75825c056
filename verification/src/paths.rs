use vstd::prelude::*;

verus! {

/// The position of the last `c` in `s` (-1 when there is none).
pub open spec fn last_index(s: Seq<char>, c: char) -> int
    decreases s.len(),
{
    if s.len() == 0 {
        -1
    } else if s.last() == c {
        s.len() - 1
    } else {
        last_index(s.drop_last(), c)
    }
}

/// A path without what adds no component at its end: trailing slashes (a lone one
/// stays) and trailing "/." parts.
pub open spec fn strip_tail(p: Seq<char>) -> Seq<char>
    decreases p.len(),
{
    if p.len() > 1 && p.last() == '/' {
        strip_tail(p.drop_last())
    } else if p.len() >= 2 && p.last() == '.' && p[p.len() - 2] == '/' {
        strip_tail(p.take(p.len() - 2))
    } else {
        p
    }
}

/// The last component of a path, if it names a file or directory (not the root, "."
/// or "..").
pub open spec fn file_name(p: Seq<char>) -> Option<Seq<char>> {
    let t = strip_tail(p);
    let seg = t.skip(last_index(t, '/') + 1);
    if seg.len() == 0 || seg == seq!['.'] || seg == seq!['.', '.'] {
        None
    } else {
        Some(seg)
    }
}

/// A file name without its extension: what comes before its last dot, unless the only
/// dot starts the name.
pub open spec fn stem(name: Seq<char>) -> Seq<char> {
    let k = last_index(name, '.');
    if k <= 0 {
        name
    } else {
        name.take(k)
    }
}

/// The name of a list file: the stem of its file name.
pub open spec fn name_of_path(p: Seq<char>) -> Option<Seq<char>> {
    match file_name(p) {
        Some(n) => Some(stem(n)),
        None => None,
    }
}

proof fn lemma_last_index_skip(s: Seq<char>, c: char, n: int)
    requires
        0 <= n <= s.len(),
        forall|j: int| n <= j < s.len() ==> s[j] != c,
    ensures
        last_index(s, c) == last_index(s.take(n), c),
    decreases s.len() - n,
{
    if n < s.len() {
        assert(s.drop_last().take(n) =~= s.take(n));
        lemma_last_index_skip(s.drop_last(), c, n);
    } else {
        assert(s.take(n) =~= s);
    }
}

/// The position of the last `c` among the first `n` characters.
fn find_last_char(s: &Vec<char>, n: usize, c: char) -> (r: Option<usize>)
    requires
        n <= s.len(),
    ensures
        match r {
            Some(k) => k < n && last_index(s@.take(n as int), c) == k as int,
            None => last_index(s@.take(n as int), c) == -1,
        },
{
    let mut i = n;
    while i > 0 && s[i - 1] != c
        invariant
            i <= n <= s.len(),
            last_index(s@.take(n as int), c) == last_index(s@.take(i as int), c),
        decreases i,
    {
        proof {
            let t = s@.take(i as int);
            assert(t.last() == s@[i - 1]);
            assert(t.drop_last() =~= s@.take(i - 1));
        }
        i = i - 1;
    }
    if i == 0 {
        assert(s@.take(0).len() == 0);
        None
    } else {
        assert(s@.take(i as int).last() == c);
        Some(i - 1)
    }
}

/// The length of the first `n` characters once `strip_tail` is applied.
fn stripped_len(s: &Vec<char>, n: usize) -> (m: usize)
    requires
        n <= s.len(),
    ensures
        m <= n,
        strip_tail(s@.take(n as int)) == s@.take(m as int),
{
    let mut m = n;
    loop
        invariant
            m <= n <= s.len(),
            strip_tail(s@.take(n as int)) == strip_tail(s@.take(m as int)),
        decreases m,
    {
        let ghost t = s@.take(m as int);
        if m > 1 && s[m - 1] == '/' {
            assert(t.last() == '/');
            assert(t.drop_last() =~= s@.take(m - 1));
            m = m - 1;
        } else if m >= 2 && s[m - 1] == '.' && s[m - 2] == '/' {
            assert(t.last() == '.' && t[t.len() - 2] == '/');
            assert(t.take(t.len() - 2) =~= s@.take(m - 2));
            m = m - 2;
        } else {
            proof {
                if t.len() > 1 {
                    assert(t.last() == s@[m - 1]);
                }
                if t.len() >= 2 {
                    assert(t[t.len() - 2] == s@[m - 2]);
                }
            }
            return m;
        }
    }
}

/// The name of a list file: the stem of its file name (as `Path::file_stem` reads it).
pub fn extract_name(path: &str) -> (r: Option<String>)
    ensures
        match r {
            Some(s) => name_of_path(path@) == Some(s@),
            None => name_of_path(path@) is None,
        },
{
    let cs = crate::text::chars_of(path);
    assert(cs@.take(cs.len() as int) =~= path@);
    let m = stripped_len(&cs, cs.len());
    let ghost t = cs@.take(m as int);
    let start: usize = match find_last_char(&cs, m, '/') {
        Some(k) => k + 1,
        None => 0,
    };
    let ghost seg = t.skip(start as int);
    assert(seg == t.skip(last_index(t, '/') + 1));
    let mut name: Vec<char> = Vec::new();
    let mut i = start;
    while i < m
        invariant
            start <= i <= m <= cs.len(),
            t == cs@.take(m as int),
            name@ == cs@.subrange(start as int, i as int),
        decreases m - i,
    {
        name.push(cs[i]);
        assert(cs@.subrange(start as int, i + 1) =~= cs@.subrange(start as int, i as int).push(cs@[i as int]));
        i = i + 1;
    }
    assert(name@ =~= seg);
    let is_dot = name.len() == 1 && name[0] == '.';
    let is_dotdot = name.len() == 2 && name[0] == '.' && name[1] == '.';
    assert(is_dot == (seg == seq!['.'])) by {
        if seg == seq!['.'] {
            assert(name@[0] == '.');
        }
        if is_dot {
            assert(seg =~= seq!['.']);
        }
    }
    assert(is_dotdot == (seg == seq!['.', '.'])) by {
        if seg == seq!['.', '.'] {
            assert(name@[0] == '.' && name@[1] == '.');
        }
        if is_dotdot {
            assert(seg =~= seq!['.', '.']);
        }
    }
    if name.len() == 0 || is_dot || is_dotdot {
        return None;
    }
    let stem_len: usize = match find_last_char(&name, name.len(), '.') {
        Some(k) => if k == 0 { name.len() } else { k },
        None => name.len(),
    };
    assert(name@.take(name.len() as int) =~= name@);
    let mut out: Vec<char> = Vec::new();
    let mut j: usize = 0;
    while j < stem_len
        invariant
            j <= stem_len <= name.len(),
            out@ == name@.take(j as int),
        decreases stem_len - j,
    {
        out.push(name[j]);
        assert(name@.take(j + 1) =~= name@.take(j as int).push(name@[j as int]));
        j = j + 1;
    }
    assert(out@ =~= stem(seg));
    Some(crate::text::string_from_chars(&out))
}

} // verus!
