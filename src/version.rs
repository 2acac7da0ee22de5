//! Semantic versions: parsing, bumping and rendering.
use vstd::prelude::*;

verus! {

/// Mathematical value of a `Version`.
pub ghost struct SemVer {
    pub major: nat,
    pub minor: nat,
    pub patch: nat,
    pub extra: Seq<char>,
    pub snapshot: bool,
}

/// A semantic version `major.minor.patch`, with an uninterpreted suffix and a
/// snapshot marker.
pub struct Version {
    pub major: u64,
    pub minor: u64,
    pub patch: u64,
    pub extra: String,
    pub snapshot: bool,
}

impl View for Version {
    type V = SemVer;

    open spec fn view(&self) -> SemVer {
        SemVer {
            major: self.major as nat,
            minor: self.minor as nat,
            patch: self.patch as nat,
            extra: self.extra@,
            snapshot: self.snapshot,
        }
    }
}

pub open spec fn is_digit(c: char) -> bool {
    '0' <= c && c <= '9'
}

pub open spec fn is_word_char(c: char) -> bool {
    crate::text::regex_word(c)
}

pub open spec fn all_digits(s: Seq<char>) -> bool {
    forall|i: int| 0 <= i < s.len() ==> is_digit(#[trigger] s[i])
}

pub open spec fn digit_value(c: char) -> nat {
    (c as int - '0' as int) as nat
}

/// Number of consecutive decimal digits in `s` from position `i` on.
pub open spec fn digit_run(s: Seq<char>, i: int) -> nat
    decreases s.len() - i,
{
    if 0 <= i < s.len() && is_digit(s[i]) {
        1 + digit_run(s, i + 1)
    } else {
        0
    }
}

/// Value of a string of decimal digits.
pub open spec fn decimal_value(s: Seq<char>) -> nat
    decreases s.len(),
{
    if s.len() == 0 {
        0
    } else {
        decimal_value(s.drop_last()) * 10 + digit_value(s.last())
    }
}

/// `-` followed by one or more word characters.
pub open spec fn is_dash_word(s: Seq<char>) -> bool {
    s.len() >= 2 && s[0] == '-' && forall|i: int| 1 <= i < s.len() ==> is_word_char(#[trigger] s[i])
}

/// What may follow the patch number: nothing, a `-word` suffix, `-SNAPSHOT`,
/// or a `-word` suffix followed by `-SNAPSHOT`.
pub open spec fn valid_suffix(s: Seq<char>) -> bool {
    s.len() == 0 || is_dash_word(s) || (s.len() > 9 && is_dash_word(s.subrange(0, s.len() - 9))
        && s.subrange(s.len() - 9, s.len() as int) == "-SNAPSHOT"@)
}

/// The version that `s` denotes, if it has the shape
/// `digits.digits.digits` followed by a valid suffix. The suffix is accepted
/// and not kept: the result has no extra text and is no snapshot.
pub open spec fn parse_spec(s: Seq<char>) -> Option<SemVer> {
    let a = digit_run(s, 0) as int;
    let p = a + 1;
    let b = digit_run(s, p) as int;
    let q = p + b + 1;
    let c = digit_run(s, q) as int;
    let e = q + c;
    if a > 0 && a < s.len() && s[a] == '.' && b > 0 && p + b < s.len() && s[p + b] == '.' && c > 0
        && e <= s.len() && valid_suffix(s.subrange(e, s.len() as int)) {
        Some(
            SemVer {
                major: decimal_value(s.subrange(0, a)),
                minor: decimal_value(s.subrange(p, p + b)),
                patch: decimal_value(s.subrange(q, e)),
                extra: Seq::empty(),
                snapshot: false,
            },
        )
    } else {
        None
    }
}

pub open spec fn fits_u64(v: SemVer) -> bool {
    v.major <= u64::MAX && v.minor <= u64::MAX && v.patch <= u64::MAX
}

/// The version after a bump of the given type; an unknown type changes nothing.
pub open spec fn bump_spec(v: SemVer, t: Seq<char>) -> SemVer {
    if t == "major"@ {
        SemVer { major: v.major + 1, minor: 0, patch: 0, extra: v.extra, snapshot: false }
    } else if t == "minor"@ {
        SemVer { major: v.major, minor: v.minor + 1, patch: 0, extra: v.extra, snapshot: false }
    } else if t == "patch"@ {
        SemVer { major: v.major, minor: v.minor, patch: v.patch + 1, extra: v.extra, snapshot: false }
    } else if t == "snapshot"@ {
        SemVer { major: v.major, minor: v.minor, patch: v.patch + 1, extra: v.extra, snapshot: true }
    } else {
        v
    }
}

/// The number that a bump of type `t` increments stays below the largest `u64`.
pub open spec fn bump_fits(v: SemVer, t: Seq<char>) -> bool {
    &&& t == "major"@ ==> v.major < u64::MAX
    &&& t == "minor"@ ==> v.minor < u64::MAX
    &&& (t == "patch"@ || t == "snapshot"@) ==> v.patch < u64::MAX
}

pub open spec fn digit_char(d: nat) -> char {
    if d == 0 {
        '0'
    } else if d == 1 {
        '1'
    } else if d == 2 {
        '2'
    } else if d == 3 {
        '3'
    } else if d == 4 {
        '4'
    } else if d == 5 {
        '5'
    } else if d == 6 {
        '6'
    } else if d == 7 {
        '7'
    } else if d == 8 {
        '8'
    } else {
        '9'
    }
}

/// Decimal digits of `n`, without leading zeros.
pub open spec fn decimal_digits(n: nat) -> Seq<char>
    decreases n,
{
    if n < 10 {
        seq![digit_char(n)]
    } else {
        decimal_digits(n / 10).push(digit_char(n % 10))
    }
}

/// The display text `major.minor.patch`, then the extra text, then
/// `-SNAPSHOT` for a snapshot.
pub open spec fn format_spec(v: SemVer) -> Seq<char> {
    decimal_digits(v.major) + "."@ + decimal_digits(v.minor) + "."@ + decimal_digits(v.patch)
        + v.extra + if v.snapshot {
        "-SNAPSHOT"@
    } else {
        Seq::empty()
    }
}

fn digit_text(d: u64) -> (r: &'static str)
    requires
        d < 10,
    ensures
        r@ == seq![digit_char(d as nat)],
{
    let r = if d == 0 {
        "0"
    } else if d == 1 {
        "1"
    } else if d == 2 {
        "2"
    } else if d == 3 {
        "3"
    } else if d == 4 {
        "4"
    } else if d == 5 {
        "5"
    } else if d == 6 {
        "6"
    } else if d == 7 {
        "7"
    } else if d == 8 {
        "8"
    } else {
        "9"
    };
    proof {
        reveal_strlit("0");
        reveal_strlit("1");
        reveal_strlit("2");
        reveal_strlit("3");
        reveal_strlit("4");
        reveal_strlit("5");
        reveal_strlit("6");
        reveal_strlit("7");
        reveal_strlit("8");
        reveal_strlit("9");
    }
    assert(r@ =~= seq![digit_char(d as nat)]);
    r
}

/// Decimal text of `n`.
pub fn decimal_text(n: u64) -> (r: String)
    ensures
        r@ == decimal_digits(n as nat),
    decreases n,
{
    if n < 10 {
        String::from_str(digit_text(n))
    } else {
        let mut r = decimal_text(n / 10);
        r.append(digit_text(n % 10));
        assert(r@ =~= decimal_digits(n as nat));
        r
    }
}

pub proof fn lemma_digit_run_stop(s: Seq<char>, i: int)
    requires
        0 <= i <= s.len(),
    ensures
        i + digit_run(s, i) <= s.len(),
        forall|j: int| i <= j < i + digit_run(s, i) ==> is_digit(#[trigger] s[j]),
        i + digit_run(s, i) < s.len() ==> !is_digit(s[i + digit_run(s, i)]),
    decreases s.len() - i,
{
    if i < s.len() && is_digit(s[i]) {
        lemma_digit_run_stop(s, i + 1);
    }
}

/// A run of `k` digits ended by a non-digit or by the end is a digit run of length `k`.
pub proof fn lemma_digit_run_exact(s: Seq<char>, i: int, k: int)
    requires
        0 <= i,
        0 <= k,
        i + k <= s.len(),
        forall|j: int| i <= j < i + k ==> is_digit(#[trigger] s[j]),
        i + k < s.len() ==> !is_digit(s[i + k]),
    ensures
        digit_run(s, i) == k,
    decreases k,
{
    if k > 0 {
        lemma_digit_run_exact(s, i + 1, k - 1);
    }
}

pub proof fn lemma_decimal_digits(n: nat)
    ensures
        decimal_digits(n).len() > 0,
        all_digits(decimal_digits(n)),
        decimal_value(decimal_digits(n)) == n,
    decreases n,
{
    lemma_digit_char(n % 10);
    if n < 10 {
        assert(decimal_digits(n).drop_last() =~= Seq::<char>::empty());
        assert(decimal_value(Seq::<char>::empty()) == 0);
    } else {
        lemma_decimal_digits(n / 10);
        assert(decimal_digits(n).drop_last() =~= decimal_digits(n / 10));
        assert(n == (n / 10) * 10 + n % 10);
        assert(decimal_digits(n).last() == digit_char(n % 10));
    }
}

pub proof fn lemma_digit_char(d: nat)
    requires
        d < 10,
    ensures
        is_digit(digit_char(d)),
        digit_value(digit_char(d)) == d,
{
}

/// Three non-empty strings of digits joined by dots parse to the version of
/// their decimal values.
pub proof fn lemma_parse_dotted_digits(a: Seq<char>, b: Seq<char>, c: Seq<char>)
    requires
        a.len() > 0,
        b.len() > 0,
        c.len() > 0,
        all_digits(a),
        all_digits(b),
        all_digits(c),
    ensures
        parse_spec(a + "."@ + b + "."@ + c) == Some(
            SemVer {
                major: decimal_value(a),
                minor: decimal_value(b),
                patch: decimal_value(c),
                extra: Seq::empty(),
                snapshot: false,
            },
        ),
{
    reveal_strlit(".");
    let s = a + "."@ + b + "."@ + c;
    let p = a.len() + 1int;
    let q = p + b.len() + 1int;
    assert(s.subrange(0, a.len() as int) =~= a);
    assert(s.subrange(p, p + b.len()) =~= b);
    assert(s.subrange(q, s.len() as int) =~= c);
    assert(s.subrange(s.len() as int, s.len() as int) =~= Seq::<char>::empty());
    assert forall|j: int| 0 <= j < a.len() implies is_digit(#[trigger] s[j]) by {
        assert(s[j] == a[j]);
    }
    assert forall|j: int| p <= j < p + b.len() implies is_digit(#[trigger] s[j]) by {
        assert(s[j] == b[j - p]);
    }
    assert forall|j: int| q <= j < q + c.len() implies is_digit(#[trigger] s[j]) by {
        assert(s[j] == c[j - q]);
    }
    lemma_digit_run_exact(s, 0, a.len() as int);
    lemma_digit_run_exact(s, p, b.len() as int);
    lemma_digit_run_exact(s, q, c.len() as int);
}

/// Parsing the display text of a version that has no extra text and is no
/// snapshot gives that version back.
pub proof fn lemma_parse_of_format(v: SemVer)
    requires
        v.extra.len() == 0,
        !v.snapshot,
    ensures
        parse_spec(format_spec(v)) == Some(v),
{
    reveal_strlit(".");
    lemma_decimal_digits(v.major);
    lemma_decimal_digits(v.minor);
    lemma_decimal_digits(v.patch);
    let a = decimal_digits(v.major);
    let b = decimal_digits(v.minor);
    let c = decimal_digits(v.patch);
    assert(format_spec(v) =~= a + "."@ + b + "."@ + c);
    lemma_parse_dotted_digits(a, b, c);
    assert(v.extra =~= Seq::<char>::empty());
}

/// A major bump increments the major number, resets the minor and patch
/// numbers and clears the snapshot marker, whatever the marker was.
pub proof fn lemma_bump_major(v: SemVer)
    ensures
        bump_spec(v, "major"@).major == v.major + 1,
        bump_spec(v, "major"@).minor == 0,
        bump_spec(v, "major"@).patch == 0,
        !bump_spec(v, "major"@).snapshot,
{
}

/// A bump of a type other than major, minor, patch and snapshot leaves the
/// version unchanged.
pub proof fn lemma_bump_unknown(v: SemVer, t: Seq<char>)
    requires
        t != "major"@,
        t != "minor"@,
        t != "patch"@,
        t != "snapshot"@,
    ensures
        bump_spec(v, t) == v,
{
}

/// A segment of version text: no `.` and no `-` in it.
pub open spec fn plain_segment(s: Seq<char>) -> bool {
    forall|i: int| 0 <= i < s.len() ==> #[trigger] s[i] != '.' && s[i] != '-'
}

pub open spec fn digit_segment(s: Seq<char>) -> bool {
    s.len() > 0 && all_digits(s)
}

/// Where `s` has a non-digit that is not a dot at position `i + k` and digits
/// before it from `i` on, the digit run from `i` ends at or before it.
proof fn lemma_run_in_segment(s: Seq<char>, i: int, seg: Seq<char>)
    requires
        0 <= i,
        i + seg.len() < s.len(),
        s.subrange(i, i + seg.len()) == seg,
        s[i + seg.len()] == '.',
        plain_segment(seg),
    ensures
        digit_run(s, i) <= seg.len(),
        digit_run(s, i) == seg.len() <==> all_digits(seg),
        digit_run(s, i) < seg.len() ==> s[i + digit_run(s, i)] != '.',
{
    lemma_digit_run_stop(s, i);
    let r = digit_run(s, i) as int;
    assert forall|j: int| 0 <= j < seg.len() implies s[i + j] == #[trigger] seg[j] by {
        assert(s.subrange(i, i + seg.len())[j] == seg[j]);
    }
    if r > seg.len() {
        assert(is_digit(s[i + seg.len()]));
    }
    if r < seg.len() {
        assert(s[i + r] == seg[r]);
        assert(!is_digit(seg[r]));
    } else {
        assert forall|j: int| 0 <= j < seg.len() implies is_digit(#[trigger] seg[j]) by {
            assert(s[i + j] == seg[j]);
        }
    }
}

/// Text of three segments free of `.` and `-`, joined by dots, parses exactly
/// when every segment is a non-empty string of digits.
pub proof fn lemma_parse_three_segments(a: Seq<char>, b: Seq<char>, c: Seq<char>)
    requires
        plain_segment(a),
        plain_segment(b),
        plain_segment(c),
    ensures
        parse_spec(a + "."@ + b + "."@ + c) is Some <==> (digit_segment(a) && digit_segment(b)
            && digit_segment(c)),
{
    reveal_strlit(".");
    let s = a + "."@ + b + "."@ + c;
    if digit_segment(a) && digit_segment(b) && digit_segment(c) {
        lemma_parse_dotted_digits(a, b, c);
    } else {
        let p = a.len() + 1int;
        let q = p + b.len() + 1int;
        assert(s.subrange(0, a.len() as int) =~= a);
        assert(s.subrange(p, p + b.len()) =~= b);
        assert(s.subrange(q, s.len() as int) =~= c);
        lemma_run_in_segment(s, 0, a);
        if digit_segment(a) {
            lemma_run_in_segment(s, p, b);
            if digit_segment(b) {
                lemma_digit_run_stop(s, q);
                let rc = digit_run(s, q) as int;
                assert forall|j: int| 0 <= j < c.len() implies s[q + j] == #[trigger] c[j] by {}
                if rc > 0 {
                    if rc >= c.len() {
                        assert forall|j: int| 0 <= j < c.len() implies is_digit(#[trigger] c[j]) by {
                            assert(s[q + j] == c[j]);
                        }
                    }
                    let suffix = s.subrange(q + rc, s.len() as int);
                    assert(suffix[0] == c[rc]);
                    assert(suffix.len() > 9 ==> suffix.subrange(0, suffix.len() - 9)[0] == suffix[0]);
                }
            }
        }
    }
}

/// Text of two segments free of `.` and `-`, joined by a dot, never parses.
pub proof fn lemma_parse_two_segments(a: Seq<char>, b: Seq<char>)
    requires
        plain_segment(a),
        plain_segment(b),
    ensures
        parse_spec(a + "."@ + b) is None,
{
    reveal_strlit(".");
    let s = a + "."@ + b;
    let p = a.len() + 1int;
    assert(s.subrange(0, a.len() as int) =~= a);
    lemma_run_in_segment(s, 0, a);
    lemma_digit_run_stop(s, p);
    let rb = digit_run(s, p) as int;
    if p + rb < s.len() {
        assert(s[p + rb] == b[rb]);
    }
}

/// Scans the digits of `s` from `start`: returns where they end and their
/// value, when it fits in a `u64`.
fn scan_digits(s: &str, start: usize) -> (r: (usize, Option<u64>))
    requires
        start <= s@.len(),
    ensures
        r.0 == start + digit_run(s@, start as int),
        match r.1 {
            Some(v) => v as nat == decimal_value(s@.subrange(start as int, r.0 as int)),
            None => decimal_value(s@.subrange(start as int, r.0 as int)) > u64::MAX,
        },
{
    let n = s.unicode_len();
    let mut i: usize = start;
    let mut acc: Option<u64> = Some(0);
    assert(s@.subrange(start as int, start as int) =~= Seq::<char>::empty());
    while i < n && '0' <= s.get_char(i) && s.get_char(i) <= '9'
        invariant
            n == s@.len(),
            start <= i <= n,
            digit_run(s@, start as int) == (i - start) + digit_run(s@, i as int),
            match acc {
                Some(v) => v as nat == decimal_value(s@.subrange(start as int, i as int)),
                None => decimal_value(s@.subrange(start as int, i as int)) > u64::MAX,
            },
        decreases n - i,
    {
        let c = s.get_char(i);
        let d = (c as u32 - '0' as u32) as u64;
        let ghost prev = s@.subrange(start as int, i as int);
        let ghost next = s@.subrange(start as int, i + 1);
        assert(next.drop_last() =~= prev);
        assert(decimal_value(next) == decimal_value(prev) * 10 + d);
        acc = match acc {
            Some(v) => {
                let w = v as u128 * 10 + d as u128;
                if w <= u64::MAX as u128 {
                    Some(w as u64)
                } else {
                    None
                }
            },
            None => None,
        };
        i = i + 1;
    }
    (i, acc)
}

impl Version {
    /// Parses text of the form `major.minor.patch` with an optional `-word`
    /// suffix and an optional `-SNAPSHOT` suffix. The suffixes are accepted but
    /// not kept. Fails when the text has another shape or a number does not
    /// fit in a `u64`.
    pub fn parse(version: &str) -> (r: Option<Version>)
        ensures
            match r {
                Some(v) => parse_spec(version@) == Some(v@),
                None => parse_spec(version@) matches Some(m) ==> !fits_u64(m),
            },
    {
        let s = version;
        let n = s.unicode_len();
        let (a, major) = scan_digits(s, 0);
        proof {
            lemma_digit_run_stop(s@, 0);
        }
        if a == 0 || a >= n || s.get_char(a) != '.' {
            return None;
        }
        let p = a + 1;
        let (pb, minor) = scan_digits(s, p);
        proof {
            lemma_digit_run_stop(s@, p as int);
        }
        if pb == p || pb >= n || s.get_char(pb) != '.' {
            return None;
        }
        let q = pb + 1;
        let (e, patch) = scan_digits(s, q);
        proof {
            lemma_digit_run_stop(s@, q as int);
        }
        if e == q || !valid_suffix_exec(s.substring_char(e, n)) {
            return None;
        }
        match (major, minor, patch) {
            (Some(major), Some(minor), Some(patch)) => {
                let v = Version { major, minor, patch, extra: String::new(), snapshot: false };
                assert(v@.extra =~= Seq::<char>::empty());
                Some(v)
            },
            _ => None,
        }
    }

    /// Bumps the version in place: `major` increments the major number and
    /// resets the others, `minor` increments the minor number and resets the
    /// patch number, `patch` increments the patch number; these three clear
    /// the snapshot marker. `snapshot` increments the patch number and sets the
    /// marker. Any other type leaves the version unchanged.
    pub fn bump(&mut self, bump_type: &str)
        requires
            bump_fits(old(self)@, bump_type@),
        ensures
            final(self)@ == bump_spec(old(self)@, bump_type@),
    {
        proof {
            reveal_strlit("major");
            reveal_strlit("minor");
            reveal_strlit("patch");
            reveal_strlit("snapshot");
        }
        if crate::text::same_text(bump_type, "major") {
            self.major = self.major + 1;
            self.minor = 0;
            self.patch = 0;
            self.snapshot = false;
        } else if crate::text::same_text(bump_type, "minor") {
            self.minor = self.minor + 1;
            self.patch = 0;
            self.snapshot = false;
        } else if crate::text::same_text(bump_type, "patch") {
            self.patch = self.patch + 1;
            self.snapshot = false;
        } else if crate::text::same_text(bump_type, "snapshot") {
            self.patch = self.patch + 1;
            self.snapshot = true;
        }
    }

    /// Display text: `major.minor.patch`, the extra text, and `-SNAPSHOT` for
    /// a snapshot.
    pub fn to_string(&self) -> (r: String)
        ensures
            r@ == format_spec(self@),
    {
        let mut r = decimal_text(self.major);
        r.append(".");
        let minor = decimal_text(self.minor);
        r.append(minor.as_str());
        r.append(".");
        let patch = decimal_text(self.patch);
        r.append(patch.as_str());
        r.append(self.extra.as_str());
        if self.snapshot {
            r.append("-SNAPSHOT");
        }
        proof {
            reveal_strlit(".");
            reveal_strlit("-SNAPSHOT");
        }
        assert(r@ =~= format_spec(self@));
        r
    }
}

fn is_dash_word_exec(s: &str, end: usize) -> (r: bool)
    requires
        end <= s@.len(),
    ensures
        r == is_dash_word(s@.subrange(0, end as int)),
{
    if end < 2 || s.get_char(0) != '-' {
        return false;
    }
    let mut i: usize = 1;
    while i < end
        invariant
            end <= s@.len(),
            1 <= i <= end,
            forall|j: int| 1 <= j < i ==> is_word_char(#[trigger] s@[j]),
        decreases end - i,
    {
        if !crate::text::is_word_char(s.get_char(i)) {
            assert(!is_word_char(s@.subrange(0, end as int)[i as int]));
            return false;
        }
        i = i + 1;
    }
    true
}

fn valid_suffix_exec(s: &str) -> (r: bool)
    ensures
        r == valid_suffix(s@),
{
    let n = s.unicode_len();
    assert(s@.subrange(0, n as int) =~= s@);
    if n == 0 || is_dash_word_exec(s, n) {
        return true;
    }
    n > 9 && is_dash_word_exec(s, n - 9) && crate::text::same_text(
        s.substring_char(n - 9, n),
        "-SNAPSHOT",
    )
}

} // verus!
