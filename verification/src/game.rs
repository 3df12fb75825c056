use vstd::prelude::*;
use vstd::std_specs::cmp::PartialEqSpecImpl;
use std::cmp::Ordering;
use crate::text::{lowercase, seq_contains, seq_starts_with};


verus! {

/// The abstract value of a game version: its name and its release channel.
#[verifier::ext_equal]
pub struct GameVersionModel {
    pub name: Seq<char>,
    pub channel: Seq<char>,
}

/// A version of the game.
#[derive(Debug, Hash)]
pub struct GameVersion {
    pub name: String,
    pub channel: String,
}

impl View for GameVersion {
    type V = GameVersionModel;

    open spec fn view(&self) -> GameVersionModel {
        GameVersionModel { name: self.name@, channel: self.channel@ }
    }
}

impl Clone for GameVersion {
    fn clone(&self) -> (r: Self)
        ensures
            r@ == self@,
    {
        GameVersion { name: self.name.clone(), channel: self.channel.clone() }
    }
}

impl PartialEq for GameVersion {
    fn eq(&self, other: &Self) -> (r: bool) {
        self.name == other.name && self.channel == other.channel
    }
}

impl Eq for GameVersion {}

impl PartialEqSpecImpl for GameVersion {
    open spec fn obeys_eq_spec() -> bool {
        true
    }

    open spec fn eq_spec(&self, other: &GameVersion) -> bool {
        self@ == other@
    }
}

/// The abstract value of a mod loader.
#[verifier::ext_equal]
pub struct LoaderModel {
    pub id: Seq<char>,
    pub name: Seq<char>,
}

/// A loader of game content (for example a mod loader).
#[derive(Debug, Hash)]
pub struct GameLoader {
    pub id: String,
    pub name: String,
}

impl View for GameLoader {
    type V = LoaderModel;

    open spec fn view(&self) -> LoaderModel {
        LoaderModel { id: self.id@, name: self.name@ }
    }
}

impl Clone for GameLoader {
    fn clone(&self) -> (r: Self)
        ensures
            r@ == self@,
    {
        GameLoader { id: self.id.clone(), name: self.name.clone() }
    }
}

impl PartialEq for GameLoader {
    fn eq(&self, other: &Self) -> (r: bool) {
        self.id == other.id && self.name == other.name
    }
}

impl Eq for GameLoader {}

impl PartialEqSpecImpl for GameLoader {
    open spec fn obeys_eq_spec() -> bool {
        true
    }

    open spec fn eq_spec(&self, other: &GameLoader) -> bool {
        self@ == other@
    }
}

impl GameLoader {
    /// The text shown for a loader: its name.
    pub fn to_display_string(&self) -> (r: String)
        ensures
            r@ == self.name@,
    {
        self.name.clone()
    }
}


/// `s` with every trailing `pat` removed, one after the other.
pub open spec fn trim_end_all(s: Seq<char>, pat: Seq<char>) -> Seq<char>
    decreases s.len(),
{
    if pat.len() > 0 && s.len() >= pat.len() && s.subrange(s.len() - pat.len(), s.len() as int) == pat {
        trim_end_all(s.subrange(0, s.len() - pat.len()), pat)
    } else {
        s
    }
}

/// A character is a decimal digit.
pub open spec fn is_digit(c: char) -> bool {
    '0' <= c && c <= '9'
}

/// Every character is a decimal digit.
pub open spec fn all_digits(d: Seq<char>) -> bool {
    forall|i: int| 0 <= i < d.len() ==> is_digit(d[i])
}

/// The characters after an optional leading `+`.
pub open spec fn unsigned_digits(s: Seq<char>) -> Seq<char> {
    if s.len() > 0 && s[0] == '+' {
        s.drop_first()
    } else {
        s
    }
}

/// The value of a sequence of decimal digits.
pub open spec fn digits_value(s: Seq<char>) -> nat
    decreases s.len(),
{
    if s.len() == 0 {
        0
    } else {
        digits_value(s.drop_last()) * 10 + ((s.last() as nat) - ('0' as nat)) as nat
    }
}

/// The number a string stands for as an unsigned 32-bit integer (an optional `+`, then
/// one or more decimal digits, of a value that fits), if it stands for one.
pub open spec fn parse_u32_spec(s: Seq<char>) -> Option<u32> {
    let d = unsigned_digits(s);
    if d.len() > 0 && all_digits(d) && digits_value(d) <= u32::MAX {
        Some(digits_value(d) as u32)
    } else {
        None
    }
}

/// The pieces of `s` between the occurrences of `c` (one more than there are occurrences).
pub open spec fn split_on(s: Seq<char>, c: char) -> Seq<Seq<char>>
    decreases s.len(),
{
    if s.len() == 0 {
        seq![Seq::empty()]
    } else {
        let rest = split_on(s.drop_last(), c);
        if s.last() == c {
            rest.push(Seq::empty())
        } else {
            rest.update(rest.len() - 1, rest.last().push(s.last()))
        }
    }
}

proof fn lemma_split_on_nonempty(s: Seq<char>, c: char)
    ensures
        split_on(s, c).len() >= 1,
    decreases s.len(),
{
    if s.len() > 0 {
        lemma_split_on_nonempty(s.drop_last(), c);
    }
}

/// The `k`-th dot-separated part of a name read as a number (0 when it is missing or is
/// not a number).
pub open spec fn component(name: Seq<char>, k: int) -> u32 {
    let parts = split_on(name, '.');
    if k < parts.len() {
        match parse_u32_spec(parts[k]) {
            Some(n) => n,
            None => 0,
        }
    } else {
        0
    }
}

/// The first three numbers of a release's name; zeros for any other version.
pub open spec fn components(v: GameVersionModel) -> Seq<u32> {
    if v.channel == "release"@ {
        seq![component(v.name, 0), component(v.name, 1), component(v.name, 2)]
    } else {
        seq![0u32, 0u32, 0u32]
    }
}

/// A version as one number: its three components weighted by a million, a thousand and one.
pub open spec fn version_number(v: GameVersionModel) -> int {
    let c = components(v);
    c[0] * 1_000_000 + c[1] * 1_000 + c[2]
}

/// Reads a number as `str::parse::<u32>` does.
pub fn parse_u32(s: &Vec<char>) -> (r: Option<u32>)
    ensures
        r == parse_u32_spec(s@),
{
    let start: usize = if s.len() > 0 && s[0] == '+' { 1 } else { 0 };
    let ghost d = if s@.len() > 0 && s@[0] == '+' { s@.drop_first() } else { s@ };
    assert(d == s@.subrange(start as int, s@.len() as int));
    if start >= s.len() {
        return None;
    }
    let mut v: u64 = 0;
    let mut i: usize = start;
    while i < s.len()
        invariant
            start <= i <= s.len(),
            start == 0 || start == 1,
            d == s@.subrange(start as int, s@.len() as int),
            d == unsigned_digits(s@),
            forall|j: int| 0 <= j < i - start ==> is_digit(d[j]),
            v == digits_value(d.take(i - start)),
            v <= u32::MAX,
        decreases s.len() - i,
    {
        let c = s[i];
        if !('0' <= c && c <= '9') {
            assert(!is_digit(d[i - start]));
            assert(!all_digits(d));
            assert(parse_u32_spec(s@) is None);
            return None;
        }
        assert(d.take(i - start + 1).drop_last() =~= d.take(i - start));
        assert(d.take(i - start + 1).last() == c);
        let digit: u64 = (c as u64) - ('0' as u64);
        v = v * 10 + digit;
        assert(v == digits_value(d.take(i - start + 1)));
        if v > 4294967295 {
            proof {
                if all_digits(d) {
                    lemma_digits_value_prefix(d, i - start + 1);
                    assert(digits_value(d) > u32::MAX);
                }
            }
            assert(parse_u32_spec(s@) is None);
            return None;
        }
        i = i + 1;
    }
    assert(d.take(i - start) =~= d);
    Some(v as u32)
}

/// A longer prefix of digits has at least the value of a shorter one.
proof fn lemma_digits_value_prefix(d: Seq<char>, k: int)
    requires
        0 <= k <= d.len(),
        forall|j: int| 0 <= j < d.len() ==> is_digit(d[j]),
    ensures
        digits_value(d) >= digits_value(d.take(k)),
    decreases d.len() - k,
{
    if k < d.len() {
        lemma_digits_value_prefix(d, k + 1);
        assert(d.take(k + 1).drop_last() =~= d.take(k));
    } else {
        assert(d.take(k) =~= d);
    }
}

/// Splits characters on a separator.
pub fn split_chars(s: &Vec<char>, c: char) -> (r: Vec<Vec<char>>)
    ensures
        r@.map_values(|p: Vec<char>| p@) == split_on(s@, c),
{
    let mut done: Vec<Vec<char>> = Vec::new();
    let mut cur: Vec<char> = Vec::new();
    let mut i: usize = 0;
    while i < s.len()
        invariant
            i <= s.len(),
            done@.map_values(|p: Vec<char>| p@).push(cur@) == split_on(s@.take(i as int), c),
        decreases s.len() - i,
    {
        assert(s@.take(i + 1).drop_last() =~= s@.take(i as int));
        assert(s@.take(i + 1).last() == s[i as int]);
        let ghost before = done@.map_values(|p: Vec<char>| p@).push(cur@);
        if s[i] == c {
            let finished = cur;
            done.push(finished);
            cur = Vec::new();
            assert(done@.map_values(|p: Vec<char>| p@).push(cur@) =~= before.push(Seq::empty()));
        } else {
            cur.push(s[i]);
            assert(done@.map_values(|p: Vec<char>| p@).push(cur@) =~= before.update(
                before.len() - 1,
                before.last().push(s@[i as int]),
            ));
        }
        i = i + 1;
    }
    assert(s@.take(s.len() as int) =~= s@);
    done.push(cur);
    done
}

impl GameVersion {
    /// A release with the given name, trailing ".0"s removed.
    pub fn release(name: String) -> (r: GameVersion)
        ensures
            r@ == (GameVersionModel { name: trim_end_all(name@, ".0"@), channel: "release"@ }),
    {
        GameVersion { name: trim_trailing_zeros(&name), channel: crate::text::owned("release") }
    }

    /// Whether this is a release.
    pub fn is_release(&self) -> (r: bool)
        ensures
            r == (self@.channel == "release"@),
    {
        crate::text::str_eq(self.channel.as_str(), "release")
    }

    /// Whether this is a snapshot.
    pub fn is_snapshot(&self) -> (r: bool)
        ensures
            r == (self@.channel == "snapshot"@),
    {
        crate::text::str_eq(self.channel.as_str(), "snapshot")
    }

    /// The first three numbers of a release's name (see `components`).
    pub fn get_components(&self) -> (r: [u32; 3])
        ensures
            r@ == components(self@),
    {
        if !self.is_release() {
            let z: [u32; 3] = [0, 0, 0];
            assert(z@ =~= components(self@));
            return z;
        }
        let cs = crate::text::chars_of(self.name.as_str());
        let parts = split_chars(&cs, '.');
        proof {
            lemma_split_on_nonempty(self@.name, '.');
        }
        let ghost pv = parts@.map_values(|p: Vec<char>| p@);
        let mut out: [u32; 3] = [0, 0, 0];
        let mut k: usize = 0;
        while k < 3
            invariant
                k <= 3,
                pv == split_on(self@.name, '.'),
                pv == parts@.map_values(|p: Vec<char>| p@),
                self@.channel == "release"@,
                out@.len() == 3,
                forall|j: int| 0 <= j < k ==> out@[j] == component(self@.name, j),
                forall|j: int| k <= j < 3 ==> out@[j] == 0,
            decreases 3 - k,
        {
            if k < parts.len() {
                assert(pv[k as int] == parts@[k as int]@);
                let n = match parse_u32(&parts[k]) {
                    Some(n) => n,
                    None => 0,
                };
                out.set(k, n);
            }
            k = k + 1;
        }
        assert(out@ =~= components(self@));
        out
    }

    /// The version as one number (see `version_number`).
    pub fn as_u64(&self) -> (r: u64)
        ensures
            r == version_number(self@),
    {
        let c = self.get_components();
        (c[0] as u64) * 1_000_000 + (c[1] as u64) * 1_000 + (c[2] as u64)
    }

    /// How far apart two versions are, as the difference of their numbers.
    pub fn distance_int(&self, other: &Self) -> (r: i64)
        ensures
            r == version_number(self@) - version_number(other@),
    {
        let a = self.as_u64();
        let b = other.as_u64();
        (a as i64) - (b as i64)
    }
}

/// Removes every trailing ".0" from a name.
#[verifier::rlimit(30)]
pub fn trim_trailing_zeros(name: &String) -> (r: String)
    ensures
        r@ == trim_end_all(name@, ".0"@),
{
    let cs = crate::text::chars_of(name.as_str());
    let mut n: usize = cs.len();
    let ghost pat = ".0"@;
    proof {
        reveal_strlit(".0");
        assert(pat =~= seq!['.', '0']);
    }
    assert(trim_end_all(name@, pat) == trim_end_all(name@.take(n as int), pat)) by {
        assert(name@.take(n as int) =~= name@);
    }
    while n >= 2 && cs[n - 1] == '0' && cs[n - 2] == '.'
        invariant
            n <= cs.len(),
            cs@ == name@,
            pat == seq!['.', '0'],
            trim_end_all(name@, pat) == trim_end_all(name@.take(n as int), pat),
        decreases n,
    {
        let ghost t = name@.take(n as int);
        assert(t.subrange(t.len() - 2, t.len() as int) =~= pat);
        assert(t.subrange(0, t.len() - 2) =~= name@.take(n - 2));
        n = n - 2;
    }
    let ghost t = name@.take(n as int);
    assert(!(t.len() >= 2 && t.subrange(t.len() - 2, t.len() as int) == pat)) by {
        if t.len() >= 2 && t.subrange(t.len() - 2, t.len() as int) == pat {
            assert(t.subrange(t.len() - 2, t.len() as int)[0] == '.');
            assert(t.subrange(t.len() - 2, t.len() as int)[1] == '0');
        }
    }
    let mut out: Vec<char> = Vec::new();
    let mut i: usize = 0;
    while i < n
        invariant
            i <= n <= cs.len(),
            cs@ == name@,
            out@ == name@.take(i as int),
        decreases n - i,
    {
        out.push(cs[i]);
        assert(name@.take(i + 1) =~= name@.take(i as int).push(name@[i as int]));
        i = i + 1;
    }
    crate::text::string_from_chars(&out)
}

/// How two versions compare: a version that is not a release comes before any other;
/// a release compares with another version component by component.
pub open spec fn compare_versions(a: GameVersionModel, b: GameVersionModel) -> Ordering {
    if a.channel != "release"@ {
        Ordering::Less
    } else {
        let x = components(a);
        let y = components(b);
        if x[0] != y[0] {
            if x[0] < y[0] { Ordering::Less } else { Ordering::Greater }
        } else if x[1] != y[1] {
            if x[1] < y[1] { Ordering::Less } else { Ordering::Greater }
        } else if x[2] != y[2] {
            if x[2] < y[2] { Ordering::Less } else { Ordering::Greater }
        } else {
            Ordering::Equal
        }
    }
}

/// Every character of `v` is a decimal digit or a dot.
pub open spec fn digits_and_dots(v: Seq<char>) -> bool {
    forall|i: int| 0 <= i < v.len() ==> is_digit(v[i]) || v[i] == '.'
}

/// The release channel of a version name `v`, given its lowercase form `lower` and the
/// length of `v` in bytes.
pub open spec fn channel_of(v: Seq<char>, v_bytes: nat, lower: Seq<char>) -> Seq<char> {
    if seq_contains(lower, "pre-release"@) || seq_contains(lower, "-pre"@) {
        "pre-release"@
    } else if seq_contains(lower, "release candidate"@) || seq_contains(lower, "-rc"@) {
        "release-candidate"@
    } else if seq_starts_with(lower, "inf-"@) || seq_contains(lower, "infdev"@) {
        "inf-dev"@
    } else if lower.len() >= 2 && lower[0] == 'c' && (is_digit(lower[1]) || lower[1] == '.') {
        "classic"@
    } else if seq_starts_with(lower, "rd-"@) || seq_contains(lower, "pre-classic"@) {
        "pre-classic"@
    } else if digits_and_dots(v) {
        "release"@
    } else if seq_contains(lower, "snapshot"@) || (v_bytes >= 5 && seq_contains(v, "w"@) && v.len() > 0
        && is_digit(v[0])) {
        "snapshot"@
    } else if (lower.len() > 0 && lower[0] == 'b') || seq_contains(lower, "beta"@) {
        "beta"@
    } else if (lower.len() > 0 && lower[0] == 'a') || seq_contains(lower, "alpha"@) {
        "alpha"@
    } else if seq_contains(lower, "experimental"@) || seq_contains(lower, "test"@) || seq_contains(
        lower,
        "unobfuscated"@,
    ) {
        "experimental"@
    } else {
        "unknown"@
    }
}

/// The version a name stands for, given the name's lowercase form.
pub open spec fn version_from(v: Seq<char>, lower: Seq<char>) -> GameVersionModel {
    GameVersionModel {
        name: trim_end_all(v, ".0"@),
        channel: channel_of(v, vstd::utf8::encode_utf8(v).len(), lower),
    }
}

/// The first character of a string, when there is one.
fn first_char(s: &Vec<char>, i: usize) -> (r: Option<char>)
    ensures
        r == (if i < s@.len() { Some(s@[i as int]) } else { None::<char> }),
{
    if i < s.len() {
        Some(s[i])
    } else {
        None
    }
}

/// Whether every character is a decimal digit or a dot.
fn all_digits_and_dots(v: &Vec<char>) -> (r: bool)
    ensures
        r == digits_and_dots(v@),
{
    let mut i: usize = 0;
    while i < v.len()
        invariant
            i <= v.len(),
            forall|j: int| 0 <= j < i ==> is_digit(v@[j]) || v@[j] == '.',
        decreases v.len() - i,
    {
        let c = v[i];
        if !(('0' <= c && c <= '9') || c == '.') {
            return false;
        }
        i = i + 1;
    }
    true
}

impl GameVersion {
    /// Compares two versions (see `compare_versions`).
    pub fn compare(&self, other: &Self) -> (r: Ordering)
        ensures
            r == compare_versions(self@, other@),
    {
        if !self.is_release() {
            return Ordering::Less;
        }
        let x = self.get_components();
        let y = other.get_components();
        if x[0] != y[0] {
            if x[0] < y[0] { Ordering::Less } else { Ordering::Greater }
        } else if x[1] != y[1] {
            if x[1] < y[1] { Ordering::Less } else { Ordering::Greater }
        } else if x[2] != y[2] {
            if x[2] < y[2] { Ordering::Less } else { Ordering::Greater }
        } else {
            Ordering::Equal
        }
    }

    /// The version a name stands for, given the lowercase form of the name (see `version_from`).
    pub fn from_lowercased(v: &String, v_l: &String) -> (r: GameVersion)
        ensures
            r@ == version_from(v@, v_l@),
    {
        let lower = v_l.as_str();
        let vs = v.as_str();
        let lc = crate::text::chars_of(lower);
        let vc = crate::text::chars_of(vs);
        let second = first_char(&lc, 1);
        let first_l = first_char(&lc, 0);
        let first_v = first_char(&vc, 0);
        let starts_c = match first_l {
            Some(c) => c == 'c',
            None => false,
        };
        let starts_b = match first_l {
            Some(c) => c == 'b',
            None => false,
        };
        let starts_a = match first_l {
            Some(c) => c == 'a',
            None => false,
        };
        let second_ok = match second {
            Some(c) => ('0' <= c && c <= '9') || c == '.',
            None => false,
        };
        let first_digit = match first_v {
            Some(c) => '0' <= c && c <= '9',
            None => false,
        };
        let is_pre = crate::text::str_contains(lower, "pre-release") || crate::text::str_contains(lower, "-pre");
        let is_rc = crate::text::str_contains(lower, "release candidate") || crate::text::str_contains(lower, "-rc");
        let is_inf = crate::text::str_starts_with(lower, "inf-") || crate::text::str_contains(lower, "infdev");
        let is_classic = starts_c && second_ok;
        let is_rd = crate::text::str_starts_with(lower, "rd-") || crate::text::str_contains(lower, "pre-classic");
        let is_release = all_digits_and_dots(&vc);
        let byte_len = vs.as_bytes().len();
        let is_snapshot = crate::text::str_contains(lower, "snapshot") || (byte_len >= 5 && crate::text::str_contains(
            vs,
            "w",
        ) && first_digit);
        let is_beta = starts_b || crate::text::str_contains(lower, "beta");
        let is_alpha = starts_a || crate::text::str_contains(lower, "alpha");
        let is_exp = crate::text::str_contains(lower, "experimental") || crate::text::str_contains(lower, "test")
            || crate::text::str_contains(lower, "unobfuscated");
        let ghost l = v_l@;
        let ghost w = v@;
        assert(vs@ == w);
        assert(vc@ == w);
        assert(first_digit == (w.len() > 0 && is_digit(w[0])));
        assert(byte_len as nat == vstd::utf8::encode_utf8(w).len());
        assert(is_classic == (l.len() >= 2 && l[0] == 'c' && (is_digit(l[1]) || l[1] == '.')));
        assert(is_beta == ((l.len() > 0 && l[0] == 'b') || seq_contains(l, "beta"@)));
        assert(is_alpha == ((l.len() > 0 && l[0] == 'a') || seq_contains(l, "alpha"@)));
        assert(is_snapshot == (seq_contains(l, "snapshot"@) || (vstd::utf8::encode_utf8(w).len() >= 5 && seq_contains(
            w,
            "w"@,
        ) && w.len() > 0 && is_digit(w[0]))));
        let channel = if is_pre {
            "pre-release"
        } else if is_rc {
            "release-candidate"
        } else if is_inf {
            "inf-dev"
        } else if is_classic {
            "classic"
        } else if is_rd {
            "pre-classic"
        } else if is_release {
            "release"
        } else if is_snapshot {
            "snapshot"
        } else if is_beta {
            "beta"
        } else if is_alpha {
            "alpha"
        } else if is_exp {
            "experimental"
        } else {
            "unknown"
        };
        assert(channel@ == channel_of(w, vstd::utf8::encode_utf8(w).len(), l));
        GameVersion { name: trim_trailing_zeros(v), channel: crate::text::owned(channel) }
    }

    /// The version a name stands for: its release channel is read from the name (see
    /// `channel_of`), and trailing ".0"s are removed from it.
    pub fn from_name(v: &String) -> (r: GameVersion)
        ensures
            r@ == version_from(v@, lowercase(v@)),
    {
        let v_l = crate::text::to_lowercase(v.as_str());
        Self::from_lowercased(v, &v_l)
    }
}
} // verus!
