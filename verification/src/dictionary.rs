//! Text post-processing and vocabulary files: user text replacements, token lists
//! stored as JSON, and the character dictionary of the OCR models.
use vstd::prelude::*;
use crate::models::{ReplacementEntry, strings_view};
use crate::text::{
    chars_of, decimal, extend_chars, occurs_at, push_decimal, string_of, trim_start, is_whitespace,
};

verus! {

// ---------------------------------------------------------------------------
// Replacements
// ---------------------------------------------------------------------------

/// `s` with `to` put before each of its characters and once more at the end: what
/// replacing the empty pattern gives, since it matches at every character boundary.
pub open spec fn around_each(s: Seq<char>, to: Seq<char>) -> Seq<char>
    decreases s.len(),
{
    if s.len() == 0 {
        to
    } else {
        to + seq![s[0]] + around_each(s.skip(1), to)
    }
}

/// `s` with the matches of `from` replaced by `to`, as `str::replace` gives it. A
/// non-empty pattern is matched from left to right without overlap: where `from`
/// starts, it is replaced and the search goes on after it; elsewhere one character is
/// kept. The empty pattern matches at every character boundary.
pub open spec fn replaced(s: Seq<char>, from: Seq<char>, to: Seq<char>) -> Seq<char>
    decreases s.len(),
{
    if from.len() == 0 {
        around_each(s, to)
    } else if s.len() < from.len() {
        s
    } else if s.take(from.len() as int) == from {
        to + replaced(s.skip(from.len() as int), from, to)
    } else {
        seq![s[0]] + replaced(s.skip(1), from, to)
    }
}

/// Whether `pat` occurs in `s` at position `i`.
fn matches_at(s: &Vec<char>, pat: &Vec<char>, i: usize) -> (r: bool)
    ensures
        r == occurs_at(s@, pat@, i as int),
{
    if i > s.len() || pat.len() > s.len() - i {
        return false;
    }
    let mut k: usize = 0;
    while k < pat.len()
        invariant
            i + pat@.len() <= s@.len(),
            s@.len() == s.len(),
            k <= pat@.len(),
            forall|q: int| 0 <= q < k ==> s@[i + q] == pat@[q],
        decreases pat.len() - k,
    {
        assert(i + k < s.len());
        if s[i + k] != pat[k] {
            assert(s@.subrange(i as int, i + pat@.len())[k as int] != pat@[k as int]);
            return false;
        }
        k = k + 1;
    }
    assert(s@.subrange(i as int, i + pat@.len()) =~= pat@);
    true
}

/// `s` with the matches of `from` replaced by `to`, as `str::replace` does it.
fn replace_all(s: &str, from: &str, to: &str) -> (r: String)
    ensures
        r@ == replaced(s@, from@, to@),
{
    let sv = chars_of(s);
    let fv = chars_of(from);
    let tv = chars_of(to);
    let mut out: Vec<char> = Vec::new();
    let mut i: usize = 0;
    assert(sv@.skip(0) =~= sv@);
    assert(out@ + replaced(sv@, fv@, tv@) =~= replaced(sv@, fv@, tv@));
    assert(out@ + around_each(sv@, tv@) =~= around_each(sv@, tv@));
    if fv.len() == 0 {
        while i < sv.len()
            invariant
                sv@ == s@,
                tv@ == to@,
                i <= sv@.len(),
                out@ + around_each(sv@.skip(i as int), tv@) == around_each(sv@, tv@),
            decreases sv.len() - i,
        {
            proof {
                assert(sv@.skip(i as int).skip(1) =~= sv@.skip(i + 1));
                assert(sv@.skip(i as int)[0] == sv@[i as int]);
            }
            let ghost before = out@;
            extend_chars(&mut out, &tv);
            out.push(sv[i]);
            assert(out@ =~= before + tv@ + seq![sv@[i as int]]);
            i = i + 1;
        }
        assert(sv@.skip(i as int) =~= Seq::<char>::empty());
        extend_chars(&mut out, &tv);
    } else {
        while i < sv.len()
            invariant
                sv@ == s@,
                fv@ == from@,
                tv@ == to@,
                fv@.len() > 0,
                i <= sv@.len(),
                out@ + replaced(sv@.skip(i as int), fv@, tv@) == replaced(sv@, fv@, tv@),
            decreases sv.len() - i,
        {
            let ghost rest = sv@.skip(i as int);
            let ghost m = fv@.len() as int;
            if matches_at(&sv, &fv, i) {
                proof {
                    assert(rest.take(m) =~= sv@.subrange(i as int, i + m));
                    assert(rest.skip(m) =~= sv@.skip(i + m));
                }
                extend_chars(&mut out, &tv);
                i = i + fv.len();
            } else {
                proof {
                    assert(rest.skip(1) =~= sv@.skip(i + 1));
                    if rest.len() < m {
                        assert(rest =~= seq![sv@[i as int]] + rest.skip(1));
                    } else {
                        assert(rest.take(m) =~= sv@.subrange(i as int, i + m));
                    }
                }
                let ghost before = out@;
                out.push(sv[i]);
                assert(out@ =~= before + seq![sv@[i as int]]);
                i = i + 1;
            }
        }
        assert(sv@.skip(i as int) =~= Seq::<char>::empty());
        assert(out@ + Seq::<char>::empty() =~= out@);
    }
    string_of(&out)
}

/// The view of a replacement: what is replaced, and by what.
pub open spec fn replacement_view(e: ReplacementEntry) -> (Seq<char>, Seq<char>) {
    (e.original@, e.replacement@)
}

/// `text` after the first `k` replacements, applied one after another in order.
pub open spec fn replaced_upto(text: Seq<char>, reps: Seq<(Seq<char>, Seq<char>)>, k: int) -> Seq<char>
    decreases k,
{
    if k <= 0 {
        text
    } else {
        replaced(replaced_upto(text, reps, k - 1), reps[k - 1].0, reps[k - 1].1)
    }
}

/// `text` after all replacements, applied one after another in order.
pub open spec fn spec_apply_replacements(text: Seq<char>, reps: Seq<(Seq<char>, Seq<char>)>) -> Seq<char> {
    replaced_upto(text, reps, reps.len() as int)
}

/// The views of a list of replacements.
pub open spec fn replacements_view(v: Seq<ReplacementEntry>) -> Seq<(Seq<char>, Seq<char>)> {
    v.map_values(|e: ReplacementEntry| replacement_view(e))
}

/// Applies the replacements to `text`, one after another in order.
pub fn apply_replacements(replacements: &[ReplacementEntry], text: &str) -> (r: String)
    ensures
        r@ == spec_apply_replacements(text@, replacements_view(replacements@)),
{
    let ghost reps = replacements_view(replacements@);
    let mut result = text.to_owned();
    let mut k: usize = 0;
    while k < replacements.len()
        invariant
            k <= replacements@.len(),
            reps == replacements_view(replacements@),
            result@ == replaced_upto(text@, reps, k as int),
        decreases replacements.len() - k,
    {
        let e = &replacements[k];
        assert(reps[k as int] == replacement_view(*e));
        result = replace_all(result.as_str(), e.original.as_str(), e.replacement.as_str());
        k = k + 1;
    }
    result
}

/// With no replacements, the text is left as it is.
pub proof fn lemma_no_replacements(text: Seq<char>)
    ensures
        spec_apply_replacements(text, Seq::empty()) == text,
{
}

proof fn lemma_upto_prefix(text: Seq<char>, reps: Seq<(Seq<char>, Seq<char>)>, e: (Seq<char>, Seq<char>), k: int)
    requires
        0 <= k <= reps.len(),
    ensures
        replaced_upto(text, reps.push(e), k) == replaced_upto(text, reps, k),
    decreases k,
{
    if k > 0 {
        lemma_upto_prefix(text, reps, e, k - 1);
        assert(reps.push(e)[k - 1] == reps[k - 1]);
    }
}

/// Every entry is applied, one after another in order: applying a list with one more
/// entry replaces that entry's matches in what the list before it gives, whatever the
/// entry holds (an empty replacement deletes).
pub proof fn lemma_one_more_replacement(
    text: Seq<char>,
    reps: Seq<(Seq<char>, Seq<char>)>,
    e: (Seq<char>, Seq<char>),
)
    ensures
        spec_apply_replacements(text, reps.push(e)) == replaced(spec_apply_replacements(text, reps), e.0, e.1),
{
    lemma_upto_prefix(text, reps, e, reps.len() as int);
    assert(reps.push(e)[reps.len() as int] == e);
}

proof fn lemma_occurs_shift(s: Seq<char>, pat: Seq<char>, j: int)
    requires
        s.len() > 0,
        j >= 0,
    ensures
        occurs_at(s.skip(1), pat, j) <==> occurs_at(s, pat, j + 1),
{
    if j + pat.len() <= s.len() - 1 {
        assert(s.skip(1).subrange(j, j + pat.len()) =~= s.subrange(j + 1, j + 1 + pat.len()));
    }
}

/// A text in which a non-empty pattern does not occur is left as it is.
pub proof fn lemma_replaced_without_match(s: Seq<char>, from: Seq<char>, to: Seq<char>)
    requires
        from.len() > 0,
        forall|j: int| !occurs_at(s, from, j),
    ensures
        replaced(s, from, to) == s,
    decreases s.len(),
{
    if s.len() >= from.len() {
        assert(!occurs_at(s, from, 0));
        assert(s.subrange(0, from.len() as int) =~= s.take(from.len() as int));
        assert forall|j: int| !occurs_at(s.skip(1), from, j) by {
            if j >= 0 {
                lemma_occurs_shift(s, from, j);
            }
        }
        lemma_replaced_without_match(s.skip(1), from, to);
        assert(s =~= seq![s[0]] + s.skip(1));
    }
}

/// A non-empty pattern is replaced at its first occurrence: what comes before it is
/// kept, the match becomes `to`, and the rest after the match is replaced in turn.
pub proof fn lemma_replaced_first_match(s: Seq<char>, from: Seq<char>, to: Seq<char>, i: int)
    requires
        from.len() > 0,
        occurs_at(s, from, i),
        forall|j: int| 0 <= j < i ==> !occurs_at(s, from, j),
    ensures
        replaced(s, from, to) == s.take(i) + to + replaced(s.skip(i + from.len()), from, to),
    decreases i,
{
    let m = from.len() as int;
    if i == 0 {
        assert(s.take(m) =~= s.subrange(0, m));
        assert(s.take(0) =~= Seq::<char>::empty());
    } else {
        assert(!occurs_at(s, from, 0));
        assert(s.take(m) =~= s.subrange(0, m));
        lemma_occurs_shift(s, from, i - 1);
        assert forall|j: int| 0 <= j < i - 1 implies !occurs_at(s.skip(1), from, j) by {
            lemma_occurs_shift(s, from, j);
        }
        lemma_replaced_first_match(s.skip(1), from, to, i - 1);
        assert(s.skip(1).skip(i - 1 + m) =~= s.skip(i + m));
        assert(seq![s[0]] + s.skip(1).take(i - 1) =~= s.take(i));
    }
}

// ---------------------------------------------------------------------------
// Token lists
// ---------------------------------------------------------------------------

/// The strings of a JSON array of strings, as `serde_json` reads it; `None` when the
/// text is not such an array.
pub uninterp spec fn spec_json_string_array(content: Seq<char>) -> Option<Seq<Seq<char>>>;

/// `serde_json::from_str::<Vec<String>>`, with the error dropped.
#[verifier::external_body]
fn parse_json_string_array(content: &str) -> (r: Option<Vec<String>>)
    ensures
        match r {
            Some(v) => spec_json_string_array(content@) == Some(strings_view(v@)),
            None => spec_json_string_array(content@) is None,
        },
{
    serde_json::from_str::<Vec<String>>(content).ok()
}

/// A token list in JSON form: its first character that is not whitespace is `[`.
pub open spec fn spec_is_json_token_list(content: Seq<char>) -> bool {
    trim_start(content).len() > 0 && trim_start(content)[0] == '['
}

/// Whether a tokens file holds a JSON array rather than lines of `token index`.
pub fn is_json_token_list(content: &str) -> (r: bool)
    ensures
        r == spec_is_json_token_list(content@),
{
    let cs = chars_of(content);
    let mut k: usize = 0;
    assert(cs@.subrange(0, cs@.len() as int) =~= cs@);
    while k < cs.len() && is_whitespace(cs[k])
        invariant
            k <= cs@.len(),
            trim_start(cs@) == trim_start(cs@.subrange(k as int, cs@.len() as int)),
        decreases cs.len() - k,
    {
        assert(cs@.subrange(k as int, cs@.len() as int).drop_first() =~= cs@.subrange(k + 1, cs@.len() as int));
        k = k + 1;
    }
    assert(trim_start(cs@.subrange(k as int, cs@.len() as int)) == cs@.subrange(k as int, cs@.len() as int));
    k < cs.len() && cs[k] == '['
}

/// Lines `token index`, one per token, numbered from 0.
pub open spec fn token_lines(tokens: Seq<Seq<char>>, k: int) -> Seq<char>
    decreases k,
{
    if k <= 0 {
        Seq::empty()
    } else {
        token_lines(tokens, k - 1) + tokens[k - 1] + seq![' '] + decimal((k - 1) as nat) + seq!['\n']
    }
}

/// The tokens file that replaces a JSON token list: `token index` lines. `None` when
/// the content is not a JSON token list or cannot be read as one.
pub open spec fn spec_converted_tokens(content: Seq<char>) -> Option<Seq<char>> {
    if !spec_is_json_token_list(content) {
        None
    } else {
        match spec_json_string_array(content) {
            Some(tokens) => Some(token_lines(tokens, tokens.len() as int)),
            None => None,
        }
    }
}

/// Rewrites a token list stored as a JSON array into lines of `token index`.
pub fn convert_json_tokens(content: &str) -> (r: Option<String>)
    ensures
        match r {
            Some(s) => spec_converted_tokens(content@) == Some(s@),
            None => spec_converted_tokens(content@) is None,
        },
{
    if !is_json_token_list(content) {
        return None;
    }
    let tokens = match parse_json_string_array(content) {
        Some(t) => t,
        None => {
            return None;
        },
    };
    let ghost ts = strings_view(tokens@);
    let mut out: Vec<char> = Vec::new();
    let mut k: usize = 0;
    while k < tokens.len()
        invariant
            k <= tokens@.len(),
            ts == strings_view(tokens@),
            out@ == token_lines(ts, k as int),
        decreases tokens.len() - k,
    {
        let t = chars_of(tokens[k].as_str());
        assert(ts[k as int] == tokens@[k as int]@);
        extend_chars(&mut out, &t);
        out.push(' ');
        push_decimal(&mut out, k as u64);
        out.push('\n');
        assert(out@ =~= token_lines(ts, k + 1));
        k = k + 1;
    }
    Some(string_of(&out))
}

// ---------------------------------------------------------------------------
// OCR dictionary
// ---------------------------------------------------------------------------

/// The dictionary the OCR decoder reads: the blank token `#` first, then the original
/// entries, then a space as the last entry, one per line.
pub open spec fn spec_ocr_dict(content: Seq<char>) -> Seq<char> {
    seq!['#', '\n'] + content + (if content.len() > 0 && content.last() == '\n' {
        Seq::empty()
    } else {
        seq!['\n']
    }) + seq![' ', '\n']
}

/// The corrected OCR dictionary for the text of `dict.txt`.
pub fn corrected_dict_content(content: &str) -> (r: String)
    ensures
        r@ == spec_ocr_dict(content@),
{
    let cs = chars_of(content);
    let mut out: Vec<char> = Vec::new();
    out.push('#');
    out.push('\n');
    extend_chars(&mut out, &cs);
    if !(cs.len() > 0 && cs[cs.len() - 1] == '\n') {
        out.push('\n');
    }
    out.push(' ');
    out.push('\n');
    assert(out@ =~= spec_ocr_dict(content@));
    string_of(&out)
}

} // verus!
