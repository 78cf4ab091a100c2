//! Character-level helpers: whitespace, trimming and conversions between
//! `&str`/`String` and sequences of `char`.
use vstd::prelude::*;

verus! {

/// The Unicode `White_Space` property, which `char::is_whitespace` tests.
pub open spec fn spec_is_whitespace(c: char) -> bool {
    let u = c as u32;
    ||| (0x09 <= u <= 0x0d)
    ||| u == 0x20
    ||| u == 0x85
    ||| u == 0xa0
    ||| u == 0x1680
    ||| (0x2000 <= u <= 0x200a)
    ||| u == 0x2028
    ||| u == 0x2029
    ||| u == 0x202f
    ||| u == 0x205f
    ||| u == 0x3000
}

/// Whether `c` has the Unicode `White_Space` property.
pub fn is_whitespace(c: char) -> (r: bool)
    ensures
        r == spec_is_whitespace(c),
{
    let u = c as u32;
    (0x09 <= u && u <= 0x0d) || u == 0x20 || u == 0x85 || u == 0xa0 || u == 0x1680 || (0x2000 <= u
        && u <= 0x200a) || u == 0x2028 || u == 0x2029 || u == 0x202f || u == 0x205f || u == 0x3000
}

/// Appends one character to a string.
#[verifier::external_body]
pub(crate) fn push_char(s: &mut String, c: char)
    ensures
        final(s)@ == old(s)@.push(c),
{
    s.push(c);
}

/// The characters of `s`, in order.
pub fn chars_of(s: &str) -> (v: Vec<char>)
    ensures
        v@ == s@,
{
    let mut v: Vec<char> = Vec::new();
    for c in it: s.chars()
        invariant
            v@ == it.seq().take(it.index() as int),
            it.seq() == s@,
    {
        v.push(c);
    }
    v
}

/// A string holding the given characters.
pub fn string_of(cs: &Vec<char>) -> (s: String)
    ensures
        s@ == cs@,
{
    let mut s = String::new();
    let mut i: usize = 0;
    while i < cs.len()
        invariant
            i <= cs.len(),
            s@ == cs@.take(i as int),
        decreases cs.len() - i,
    {
        push_char(&mut s, cs[i]);
        assert(cs@.take(i as int).push(cs@[i as int]) =~= cs@.take(i + 1));
        i = i + 1;
    }
    assert(cs@.take(cs.len() as int) =~= cs@);
    s
}


/// `s` without its leading whitespace.
pub open spec fn trim_start(s: Seq<char>) -> Seq<char>
    decreases s.len(),
{
    if s.len() > 0 && spec_is_whitespace(s[0]) {
        trim_start(s.drop_first())
    } else {
        s
    }
}

/// `s` without its trailing whitespace.
pub open spec fn trim_end(s: Seq<char>) -> Seq<char>
    decreases s.len(),
{
    if s.len() > 0 && spec_is_whitespace(s.last()) {
        trim_end(s.drop_last())
    } else {
        s
    }
}

/// `s` without leading and trailing whitespace, as `str::trim` gives it.
pub open spec fn trim(s: Seq<char>) -> Seq<char> {
    trim_end(trim_start(s))
}

/// The bounds of `trim(t[a..b])` inside `t`.
pub fn trim_bounds(t: &Vec<char>, a: usize, b: usize) -> (r: (usize, usize))
    requires
        a <= b <= t.len(),
    ensures
        a <= r.0 <= r.1 <= b,
        t@.subrange(r.0 as int, r.1 as int) == trim(t@.subrange(a as int, b as int)),
{
    let mut lo = a;
    while lo < b && is_whitespace(t[lo])
        invariant
            a <= lo <= b <= t.len(),
            trim_start(t@.subrange(a as int, b as int)) == trim_start(t@.subrange(lo as int, b as int)),
        decreases b - lo,
    {
        assert(t@.subrange(lo as int, b as int).drop_first() =~= t@.subrange(lo + 1, b as int));
        lo = lo + 1;
    }
    assert(trim_start(t@.subrange(lo as int, b as int)) == t@.subrange(lo as int, b as int));
    let mut hi = b;
    while hi > lo && is_whitespace(t[hi - 1])
        invariant
            a <= lo <= hi <= b <= t.len(),
            trim_end(t@.subrange(lo as int, b as int)) == trim_end(t@.subrange(lo as int, hi as int)),
        decreases hi - lo,
    {
        assert(t@.subrange(lo as int, hi as int).drop_last() =~= t@.subrange(lo as int, hi - 1));
        hi = hi - 1;
    }
    (lo, hi)
}

/// The characters `t[a..b]`.
pub fn sub_chars(t: &Vec<char>, a: usize, b: usize) -> (r: Vec<char>)
    requires
        a <= b <= t.len(),
    ensures
        r@ == t@.subrange(a as int, b as int),
{
    let mut r: Vec<char> = Vec::new();
    let mut k = a;
    while k < b
        invariant
            a <= k <= b <= t.len(),
            r@ == t@.subrange(a as int, k as int),
        decreases b - k,
    {
        r.push(t[k]);
        assert(t@.subrange(a as int, k as int).push(t@[k as int]) =~= t@.subrange(a as int, k + 1));
        k = k + 1;
    }
    r
}

/// Appends the characters `b` to `a`.
pub fn extend_chars(a: &mut Vec<char>, b: &Vec<char>)
    ensures
        final(a)@ == old(a)@ + b@,
{
    let ghost start = a@;
    let mut k: usize = 0;
    while k < b.len()
        invariant
            k <= b.len(),
            a@ == start + b@.take(k as int),
        decreases b.len() - k,
    {
        a.push(b[k]);
        assert(start + b@.take(k as int).push(b@[k as int]) =~= start + b@.take(k + 1));
        k = k + 1;
    }
    assert(b@.take(b.len() as int) =~= b@);
}

/// The decimal digit `d` as a character.
pub open spec fn digit_char(d: int) -> char {
    if d == 0 { '0' }
    else if d == 1 { '1' }
    else if d == 2 { '2' }
    else if d == 3 { '3' }
    else if d == 4 { '4' }
    else if d == 5 { '5' }
    else if d == 6 { '6' }
    else if d == 7 { '7' }
    else if d == 8 { '8' }
    else { '9' }
}

/// The decimal notation of `n`, without leading zeros.
pub open spec fn decimal(n: nat) -> Seq<char>
    decreases n,
{
    if n < 10 {
        seq![digit_char(n as int)]
    } else {
        decimal(n / 10).push(digit_char((n % 10) as int))
    }
}

/// `s` with zeros put in front until it has at least `width` characters.
pub open spec fn zero_pad(s: Seq<char>, width: nat) -> Seq<char> {
    if s.len() >= width {
        s
    } else {
        Seq::new((width - s.len()) as nat, |i: int| '0') + s
    }
}

/// The decimal notation of `n` padded with zeros to `width`, as `{:0width$}` prints it.
pub open spec fn padded_decimal(n: nat, width: nat) -> Seq<char> {
    zero_pad(decimal(n), width)
}

fn digit(d: u64) -> (c: char)
    requires
        d < 10,
    ensures
        c == digit_char(d as int),
{
    if d == 0 { '0' }
    else if d == 1 { '1' }
    else if d == 2 { '2' }
    else if d == 3 { '3' }
    else if d == 4 { '4' }
    else if d == 5 { '5' }
    else if d == 6 { '6' }
    else if d == 7 { '7' }
    else if d == 8 { '8' }
    else { '9' }
}

/// Appends the decimal notation of `n`.
pub fn push_decimal(out: &mut Vec<char>, n: u64)
    ensures
        final(out)@ == old(out)@ + decimal(n as nat),
    decreases n,
{
    if n >= 10 {
        push_decimal(out, n / 10);
    }
    out.push(digit(n % 10));
    proof {
        if n >= 10 {
            assert(decimal(n as nat) == decimal((n / 10) as nat).push(digit_char((n % 10) as int)));
        }
    }
    assert(final(out)@ =~= old(out)@ + decimal(n as nat)) by {
        if n < 10 {
            assert(decimal(n as nat) =~= seq![digit_char(n as int)]);
        }
    }
}

/// Appends the decimal notation of `n`, padded with zeros to `width`.
pub fn push_padded(out: &mut Vec<char>, n: u64, width: usize)
    ensures
        final(out)@ == old(out)@ + padded_decimal(n as nat, width as nat),
{
    let mut digits: Vec<char> = Vec::new();
    push_decimal(&mut digits, n);
    assert(digits@ =~= decimal(n as nat));
    if digits.len() < width {
        let ghost start = out@;
        let fill = width - digits.len();
        let mut k: usize = 0;
        while k < fill
            invariant
                k <= fill,
                fill == width - digits@.len(),
                out@ == start + Seq::new(k as nat, |i: int| '0'),
            decreases fill - k,
        {
            out.push('0');
            assert(start + Seq::new(k as nat, |i: int| '0').push('0') =~= start + Seq::new((k + 1) as nat, |i: int| '0'));
            k = k + 1;
        }
        extend_chars(out, &digits);
        assert(out@ =~= start + (Seq::new(fill as nat, |i: int| '0') + digits@));
    } else {
        extend_chars(out, &digits);
    }
}

/// Appends the characters of `s`.
pub fn push_str_chars(out: &mut Vec<char>, s: &str)
    ensures
        final(out)@ == old(out)@ + s@,
{
    let cs = chars_of(s);
    extend_chars(out, &cs);
}

/// Whether two strings hold the same characters.
pub fn str_eq(a: &str, b: &str) -> (r: bool)
    ensures
        r == (a@ == b@),
{
    let x = chars_of(a);
    let y = chars_of(b);
    if x.len() != y.len() {
        return false;
    }
    let mut k: usize = 0;
    while k < x.len()
        invariant
            x@ == a@,
            y@ == b@,
            x@.len() == y@.len(),
            k <= x@.len(),
            forall|q: int| 0 <= q < k ==> x@[q] == y@[q],
        decreases x.len() - k,
    {
        if x[k] != y[k] {
            assert(x@[k as int] != y@[k as int]);
            return false;
        }
        k = k + 1;
    }
    assert(x@ =~= y@);
    true
}

/// `parts` joined with `sep` between neighbours.
pub open spec fn join_seq(parts: Seq<Seq<char>>, sep: Seq<char>) -> Seq<char>
    decreases parts.len(),
{
    if parts.len() == 0 {
        Seq::empty()
    } else if parts.len() == 1 {
        parts[0]
    } else {
        join_seq(parts.drop_last(), sep) + sep + parts.last()
    }
}

/// Joining one more part onto a prefix of parts.
pub proof fn lemma_join_step(parts: Seq<Seq<char>>, sep: Seq<char>, i: int)
    requires
        0 <= i < parts.len(),
    ensures
        join_seq(parts.take(i + 1), sep) == if i == 0 {
            parts[0]
        } else {
            join_seq(parts.take(i), sep) + sep + parts[i]
        },
{
    assert(parts.take(i + 1).drop_last() =~= parts.take(i));
    assert(parts.take(i + 1).last() == parts[i]);
    if i == 0 {
        assert(parts.take(1)[0] == parts[0]);
    }
}

/// The lower-case form of a string, as `str::to_lowercase` gives it.
pub uninterp spec fn spec_to_lowercase(s: Seq<char>) -> Seq<char>;

/// Every character of `s` is ASCII.
pub open spec fn is_ascii_text(s: Seq<char>) -> bool {
    forall|i: int| 0 <= i < s.len() ==> (#[trigger] s[i] as u32) < 128
}

/// The ASCII lower case of a character: `A` to `Z` become `a` to `z`, others stay.
pub open spec fn ascii_lower_char(c: char) -> char {
    if 'A' <= c && c <= 'Z' {
        ((c as u32) + 32) as char
    } else {
        c
    }
}

/// The ASCII lower case of a string, character by character.
pub open spec fn ascii_lowercase(s: Seq<char>) -> Seq<char> {
    s.map_values(|c: char| ascii_lower_char(c))
}

/// The lower case of `s`: character by character on ASCII text, and what
/// `str::to_lowercase` gives otherwise.
pub open spec fn lower_case(s: Seq<char>) -> Seq<char> {
    if is_ascii_text(s) {
        ascii_lowercase(s)
    } else {
        spec_to_lowercase(s)
    }
}

/// `str::to_lowercase`.
///
/// Claims: the result is the lower case of `s` by the named function; on ASCII text,
/// as the documentation of `str::to_lowercase` and of `char::to_lowercase` give it,
/// that is `A` to `Z` turned into `a` to `z` and every other character kept.
#[verifier::external_body]
pub(crate) fn to_lowercase(s: &str) -> (r: String)
    ensures
        r@ == spec_to_lowercase(s@),
        is_ascii_text(s@) ==> r@ == ascii_lowercase(s@),
{
    s.to_lowercase()
}

/// `pat` occurs in `s` at position `i`.
pub open spec fn occurs_at(s: Seq<char>, pat: Seq<char>, i: int) -> bool {
    0 <= i && i + pat.len() <= s.len() && s.subrange(i, i + pat.len()) == pat
}

/// Where `pat` first occurs in `s`, if it does.
pub fn find_first(s: &Vec<char>, pat: &Vec<char>) -> (r: Option<usize>)
    ensures
        match r {
            Some(i) => occurs_at(s@, pat@, i as int) && forall|j: int| 0 <= j < i ==> !occurs_at(s@, pat@, j),
            None => forall|j: int| !occurs_at(s@, pat@, j),
        },
{
    if pat.len() > s.len() {
        return None;
    }
    let mut i: usize = 0;
    let n = s.len();
    let last = s.len() - pat.len();
    while i <= last
        invariant
            pat@.len() <= s@.len(),
            n == s@.len(),
            last == s@.len() - pat@.len(),
            i <= last + 1,
            forall|j: int| 0 <= j < i ==> !occurs_at(s@, pat@, j),
        decreases s.len() - i,
    {
        let mut k: usize = 0;
        let mut same = true;
        while k < pat.len()
            invariant
                i + pat@.len() <= s@.len(),
                i <= last,
                n == s@.len(),
                last == s@.len() - pat@.len(),
                k <= pat@.len(),
                same == forall|q: int| 0 <= q < k ==> s@[i + q] == pat@[q],
            decreases pat.len() - k,
        {
            if s[i + k] != pat[k] {
                same = false;
            }
            k = k + 1;
        }
        if same {
            assert(s@.subrange(i as int, i + pat@.len()) =~= pat@);
            return Some(i);
        }
        assert(!occurs_at(s@, pat@, i as int)) by {
            let q = choose|q: int| 0 <= q < pat@.len() && s@[i + q] != pat@[q];
            if s@.subrange(i as int, i + pat@.len()) == pat@ {
                assert(s@.subrange(i as int, i + pat@.len())[q] == s@[i + q]);
            }
        }
        i = i + 1;
    }
    None
}

/// Where `pat` first occurs in `s`.
pub open spec fn first_occurrence(s: Seq<char>, pat: Seq<char>) -> Option<int> {
    if exists|i: int| occurs_at(s, pat, i) {
        Some(choose|i: int| occurs_at(s, pat, i) && forall|j: int| 0 <= j < i ==> !occurs_at(s, pat, j))
    } else {
        None
    }
}

/// An occurrence with none before it is the first occurrence.
pub proof fn lemma_first_occurrence(s: Seq<char>, pat: Seq<char>, i: int)
    requires
        occurs_at(s, pat, i),
        forall|j: int| 0 <= j < i ==> !occurs_at(s, pat, j),
    ensures
        first_occurrence(s, pat) == Some(i),
{
    let c = choose|c: int| occurs_at(s, pat, c) && forall|j: int| 0 <= j < c ==> !occurs_at(s, pat, j);
    assert(occurs_at(s, pat, c) && forall|j: int| 0 <= j < c ==> !occurs_at(s, pat, j));
    if c < i {
        assert(!occurs_at(s, pat, c));
    } else if c > i {
        assert(!occurs_at(s, pat, i));
    }
}

/// Where `pat` first occurs in `s`, as `str::find` gives it.
pub fn find(s: &Vec<char>, pat: &Vec<char>) -> (r: Option<usize>)
    ensures
        match r {
            Some(i) => first_occurrence(s@, pat@) == Some(i as int) && occurs_at(s@, pat@, i as int),
            None => first_occurrence(s@, pat@) is None,
        },
{
    let r = find_first(s, pat);
    proof {
        if let Some(i) = r {
            lemma_first_occurrence(s@, pat@, i as int);
        }
    }
    r
}

/// `s` up to the first occurrence of `pat`, or all of `s` when `pat` does not occur.
pub open spec fn before_first(s: Seq<char>, pat: Seq<char>) -> Seq<char> {
    match first_occurrence(s, pat) {
        Some(j) => s.take(j),
        None => s,
    }
}

/// The characters of `s` before the first occurrence of `pat`.
pub fn take_until(s: &Vec<char>, pat: &Vec<char>) -> (r: Vec<char>)
    ensures
        r@ == before_first(s@, pat@),
{
    match find(s, pat) {
        Some(j) => {
            let r = sub_chars(s, 0, j);
            assert(r@ =~= s@.take(j as int));
            r
        },
        None => {
            let r = sub_chars(s, 0, s.len());
            assert(r@ =~= s@);
            r
        },
    }
}

/// The trimmed characters of `s`.
pub fn trimmed(s: &Vec<char>) -> (r: Vec<char>)
    ensures
        r@ == trim(s@),
{
    let (a, b) = trim_bounds(s, 0, s.len());
    assert(s@.subrange(0, s@.len() as int) =~= s@);
    sub_chars(s, a, b)
}

} // verus!
