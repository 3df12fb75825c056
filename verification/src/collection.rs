use vstd::prelude::*;
use crate::text::{occurs_at, seq_contains};

verus! {

/// A character of the Unicode `White_Space` property (what `str::trim` removes).
pub open spec fn is_white_space(c: char) -> bool {
    ||| '\u{9}' <= c && c <= '\u{d}'
    ||| c == ' '
    ||| c == '\u{85}'
    ||| c == '\u{a0}'
    ||| c == '\u{1680}'
    ||| '\u{2000}' <= c && c <= '\u{200a}'
    ||| c == '\u{2028}'
    ||| c == '\u{2029}'
    ||| c == '\u{202f}'
    ||| c == '\u{205f}'
    ||| c == '\u{3000}'
}

/// The number of white-space characters at the start of `s`.
pub open spec fn lead_ws(s: Seq<char>) -> nat
    decreases s.len(),
{
    if s.len() > 0 && is_white_space(s[0]) {
        1 + lead_ws(s.drop_first())
    } else {
        0
    }
}

/// The number of white-space characters at the end of `s`.
pub open spec fn trail_ws(s: Seq<char>) -> nat
    decreases s.len(),
{
    if s.len() > 0 && is_white_space(s.last()) {
        1 + trail_ws(s.drop_last())
    } else {
        0
    }
}

/// `s` without white space at either end.
pub open spec fn trimmed(s: Seq<char>) -> Seq<char> {
    let a = lead_ws(s);
    let t = s.skip(a as int);
    t.take(t.len() - trail_ws(t))
}

pub fn is_white_space_char(c: char) -> (r: bool)
    ensures
        r == is_white_space(c),
{
    ('\u{9}' <= c && c <= '\u{d}') || c == ' ' || c == '\u{85}' || c == '\u{a0}' || c == '\u{1680}' || ('\u{2000}'
        <= c && c <= '\u{200a}') || c == '\u{2028}' || c == '\u{2029}' || c == '\u{202f}' || c == '\u{205f}' || c
        == '\u{3000}'
}

proof fn lemma_lead_ws(s: Seq<char>, k: int)
    requires
        0 <= k <= s.len(),
        forall|j: int| 0 <= j < k ==> is_white_space(s[j]),
    ensures
        lead_ws(s) == k + lead_ws(s.skip(k)),
    decreases k,
{
    if k > 0 {
        assert(s.drop_first().skip(k - 1) =~= s.skip(k));
        lemma_lead_ws(s.drop_first(), k - 1);
    } else {
        assert(s.skip(0) =~= s);
    }
}

proof fn lemma_trail_ws(s: Seq<char>, k: int)
    requires
        0 <= k <= s.len(),
        forall|j: int| s.len() - k <= j < s.len() ==> is_white_space(s[j]),
    ensures
        trail_ws(s) == k + trail_ws(s.take(s.len() - k)),
    decreases k,
{
    if k > 0 {
        assert(s.drop_last().take(s.drop_last().len() - (k - 1)) =~= s.take(s.len() - k));
        lemma_trail_ws(s.drop_last(), k - 1);
    } else {
        assert(s.take(s.len() as int) =~= s);
    }
}

/// A string without white space at either end (as `str::trim` gives it).
pub fn trim_chars(s: &Vec<char>) -> (r: Vec<char>)
    ensures
        r@ == trimmed(s@),
{
    let mut a: usize = 0;
    while a < s.len() && is_white_space_char(s[a])
        invariant
            a <= s.len(),
            forall|j: int| 0 <= j < a ==> is_white_space(s@[j]),
        decreases s.len() - a,
    {
        a = a + 1;
    }
    proof {
        lemma_lead_ws(s@, a as int);
        if a < s.len() {
            assert(s@.skip(a as int)[0] == s@[a as int]);
        }
        assert(lead_ws(s@.skip(a as int)) == 0);
    }
    let ghost t = s@.skip(a as int);
    let mut b: usize = s.len();
    while b > a && is_white_space_char(s[b - 1])
        invariant
            a <= b <= s.len(),
            t == s@.skip(a as int),
            forall|j: int| b <= j < s.len() ==> is_white_space(s@[j]),
        decreases b,
    {
        b = b - 1;
    }
    proof {
        let k = (s.len() - b) as int;
        assert forall|j: int| t.len() - k <= j < t.len() implies is_white_space(t[j]) by {
            assert(t[j] == s@[a + j]);
        }
        lemma_trail_ws(t, k);
        let u = t.take(t.len() - k);
        if u.len() > 0 {
            assert(u.last() == s@[b - 1]);
        }
        assert(trail_ws(u) == 0);
    }
    let mut out: Vec<char> = Vec::new();
    let mut i: usize = a;
    while i < b
        invariant
            a <= i <= b <= s.len(),
            out@ == s@.subrange(a as int, i as int),
        decreases b - i,
    {
        out.push(s[i]);
        assert(s@.subrange(a as int, i + 1) =~= s@.subrange(a as int, i as int).push(s@[i as int]));
        i = i + 1;
    }
    assert(out@ =~= trimmed(s@));
    out
}

/// The position of the last occurrence of `needle` in `hay` (-1 when there is none).
pub open spec fn last_occurrence(hay: Seq<char>, needle: Seq<char>) -> int {
    if seq_contains(hay, needle) {
        choose|i: int| occurs_at(hay, needle, i) && forall|j: int| occurs_at(hay, needle, j) ==> j <= i
    } else {
        -1
    }
}

/// A character that ends the id in a collection link.
pub open spec fn is_id_end(c: char) -> bool {
    c == '/' || c == '?' || c == '#'
}

/// `s` up to its first '/', '?' or '#'.
pub open spec fn id_prefix(s: Seq<char>) -> Seq<char>
    decreases s.len(),
{
    if s.len() == 0 {
        s
    } else if is_id_end(s[0]) {
        Seq::empty()
    } else {
        seq![s[0]] + id_prefix(s.drop_first())
    }
}

/// The id of a collection of the remote service, given as the id itself or as a link:
/// the text (without surrounding white space), or, for a link, what follows its last
/// "/collection/" up to the next '/', '?' or '#'. None for blank text or a link with
/// no id.
pub open spec fn collection_id(input: Seq<char>) -> Option<Seq<char>> {
    let t = trimmed(input);
    if t.len() == 0 {
        None
    } else if seq_contains(t, "modrinth.com/collection/"@) {
        let k = last_occurrence(t, "/collection/"@);
        let id = id_prefix(t.skip(k + 12));
        if id.len() == 0 {
            None
        } else {
            Some(id)
        }
    } else {
        Some(t)
    }
}

/// Finds the last occurrence of `needle` in `hay`.
pub fn find_last(hay: &Vec<char>, needle: &Vec<char>) -> (r: Option<usize>)
    ensures
        match r {
            Some(i) => occurs_at(hay@, needle@, i as int) && forall|j: int| occurs_at(hay@, needle@, j) ==> j <= i,
            None => !seq_contains(hay@, needle@),
        },
{
    if needle.len() > hay.len() {
        return None;
    }
    let mut i: usize = hay.len() - needle.len();
    loop
        invariant
            i <= hay.len() - needle.len(),
            needle.len() <= hay.len(),
            forall|j: int| i < j && occurs_at(hay@, needle@, j) ==> false,
        decreases i,
    {
        if crate::text::matches_at(hay, needle, i) {
            return Some(i);
        }
        if i == 0 {
            assert forall|j: int| !occurs_at(hay@, needle@, j) by {
                if j == 0 {
                }
            }
            return None;
        }
        i = i - 1;
    }
}

/// Reads the id of a collection (see `collection_id`).
pub fn parse_collection_id(input: &str) -> (r: Option<String>)
    ensures
        match r {
            Some(s) => collection_id(input@) == Some(s@),
            None => collection_id(input@) is None,
        },
{
    let cs = crate::text::chars_of(input);
    let t = trim_chars(&cs);
    if t.len() == 0 {
        return None;
    }
    let marker = crate::text::chars_of("modrinth.com/collection/");
    let sep = crate::text::chars_of("/collection/");
    if crate::text::contains_chars(&t, &marker) {
        proof {
            reveal_strlit("/collection/");
            reveal_strlit("modrinth.com/collection/");
            assert(occurs_at(t@, marker@, choose|i: int| occurs_at(t@, marker@, i)));
            let i = choose|i: int| occurs_at(t@, marker@, i);
            assert(t@.subrange(i + 12, i + 24) =~= marker@.subrange(12, 24));
            assert(marker@.subrange(12, 24) =~= sep@);
            assert(occurs_at(t@, sep@, i + 12));
        }
        match find_last(&t, &sep) {
            Some(k) => {
                proof {
                    reveal_strlit("/collection/");
                }
                assert(k == last_occurrence(t@, sep@));
                let ghost rest = t@.skip(k + 12);
                let mut out: Vec<char> = Vec::new();
                let mut i: usize = k + 12;
                while i < t.len() && !(t[i] == '/' || t[i] == '?' || t[i] == '#')
                    invariant
                        k + 12 <= i <= t.len(),
                        rest == t@.skip(k + 12),
                        id_prefix(rest) == out@ + id_prefix(t@.skip(i as int)),
                    decreases t.len() - i,
                {
                    assert(t@.skip(i as int).drop_first() =~= t@.skip(i + 1));
                    out.push(t[i]);
                    assert(out@ =~= out@.drop_last() + seq![t@[i as int]]);
                    i = i + 1;
                }
                assert(id_prefix(t@.skip(i as int)) =~= Seq::<char>::empty()) by {
                    if i < t.len() {
                        assert(t@.skip(i as int)[0] == t@[i as int]);
                    }
                }
                assert(out@ =~= id_prefix(rest));
                if out.len() == 0 {
                    None
                } else {
                    Some(crate::text::string_from_chars(&out))
                }
            },
            None => None,
        }
    } else {
        Some(crate::text::string_from_chars(&t))
    }
}

} // verus!
