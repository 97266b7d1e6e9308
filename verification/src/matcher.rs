//! Selecting entry keys by pattern. Dots and underscores are equivalent in
//! session names; a pattern with `*` is a case-insensitive glob over the
//! whole key; any other pattern picks the single best fuzzy match.
use regex::Regex;
use vstd::prelude::*;

use crate::text::{
    chars_contains, chars_eq, chars_has, chars_of, chars_replace_char, chars_starts_with,
    contains_seq, has_char, owned, push_all, replace_char, string_from_chars, views,
};

verus! {

broadcast use vstd::string::group_string_axioms;

/// A session name with every `.` written as `_`.
pub open spec fn normalized(s: Seq<char>) -> Seq<char> {
    replace_char(s, '.', '_')
}

/// The name with every `.` replaced by `_` (tmux does not accept dots in
/// session names).
pub fn normalize_session_name(name: &str) -> (r: String)
    ensures
        r@ == normalized(name@),
{
    let v = chars_of(name);
    let w = chars_replace_char(v.as_slice(), '.', '_');
    string_from_chars(w.as_slice())
}

/// The characters that have a meaning of their own in a regular expression.
pub open spec fn regex_meta() -> Seq<char> {
    seq!['.', '+', '^', '$', '{', '}', '(', ')', '|', '[', ']', '\\']
}

/// A glob character written as regular-expression text: `*` matches any run,
/// `?` any one character, a meta character stands for itself.
pub open spec fn escape_glob_char(c: char) -> Seq<char> {
    if c == '*' {
        seq!['.', '*']
    } else if c == '?' {
        seq!['.']
    } else if has_char(regex_meta(), c) {
        seq!['\\', c]
    } else {
        seq![c]
    }
}

pub open spec fn escape_glob(g: Seq<char>) -> Seq<char>
    decreases g.len(),
{
    if g.len() == 0 {
        Seq::empty()
    } else {
        escape_glob(g.drop_last()) + escape_glob_char(g.last())
    }
}

/// The regular expression of a glob: case-insensitive, anchored at both ends.
pub open spec fn glob_regex_source(g: Seq<char>) -> Seq<char> {
    "(?i)^"@ + escape_glob(g) + "$"@
}

/// The regular-expression text of a glob.
fn glob_to_regex_source(glob: &str) -> (r: String)
    ensures
        r@ == glob_regex_source(glob@),
{
    let g = chars_of(glob);
    let meta = chars_of(".+^${}()|[]\\");
    proof {
        reveal_strlit(".+^${}()|[]\\");
        assert(meta@ =~= regex_meta());
    }
    let head = chars_of("(?i)^");
    let mut escaped: Vec<char> = Vec::new();
    push_all(&mut escaped, head.as_slice());
    let mut i: usize = 0;
    assert(g@.take(0) =~= Seq::<char>::empty());
    assert(escaped@ =~= "(?i)^"@ + escape_glob(g@.take(0)));
    while i < g.len()
        invariant
            i <= g.len(),
            meta@ == regex_meta(),
            escaped@ == "(?i)^"@ + escape_glob(g@.take(i as int)),
        decreases g.len() - i,
    {
        let c = g[i];
        let ghost before = escaped@;
        if c == '*' {
            escaped.push('.');
            escaped.push('*');
        } else if c == '?' {
            escaped.push('.');
        } else if chars_has(meta.as_slice(), c) {
            escaped.push('\\');
            escaped.push(c);
        } else {
            escaped.push(c);
        }
        assert(escaped@ =~= before + escape_glob_char(c));
        assert(g@.take(i + 1).drop_last() =~= g@.take(i as int));
        i = i + 1;
    }
    assert(g@.take(g.len() as int) =~= g@);
    let tail = chars_of("$");
    push_all(&mut escaped, tail.as_slice());
    string_from_chars(escaped.as_slice())
}

/// `regex::Regex`, declared so that a compiled regular expression can be held;
/// Verus sees nothing inside it.
#[verifier::external_type_specification]
#[verifier::external_body]
pub struct ExRegex(Regex);

/// Whether `regex::Regex::new` accepts `pattern`.
pub uninterp spec fn regex_compiles(pattern: Seq<char>) -> bool;

/// Whether the regular expression `pattern` matches somewhere in `text`
/// (`regex::Regex::is_match`).
pub uninterp spec fn regex_is_match(pattern: Seq<char>, text: Seq<char>) -> bool;

/// A compiled regular expression together with the text it was compiled from.
pub struct CompiledRegex {
    regex: Regex,
    source: String,
}

impl CompiledRegex {
    pub closed spec fn source_text(&self) -> Seq<char> {
        self.source@
    }
}

/// `regex::Regex::new`: compiles `source`; `None` exactly when the regex
/// crate rejects it.
#[verifier::external_body]
fn regex_new(source: &str) -> (r: Option<CompiledRegex>)
    ensures
        r is Some <==> regex_compiles(source@),
        r matches Some(c) ==> c.source_text() == source@,
{
    match Regex::new(source) {
        Ok(regex) => Some(CompiledRegex { regex, source: source.to_string() }),
        Err(_) => None,
    }
}

/// `regex::Regex::is_match`: whether the regex matches in `text`.
#[verifier::external_body]
fn regex_matches(re: &CompiledRegex, text: &str) -> (b: bool)
    ensures
        b == regex_is_match(re.source_text(), text@),
{
    re.regex.is_match(text)
}

/// The lower-case form of a string (`str::to_lowercase`).
pub uninterp spec fn lowercase(s: Seq<char>) -> Seq<char>;

/// `str::to_lowercase`.
#[verifier::external_body]
fn to_lowercase(s: &str) -> (r: String)
    ensures
        r@ == lowercase(s@),
{
    s.to_lowercase()
}

/// The byte length of a string's UTF-8 encoding, as `String::len` gives it.
pub open spec fn byte_len(s: Seq<char>) -> usize {
    vstd::utf8::encode_utf8(s).len() as usize
}

/// The subsequence scan of candidate `c` for pattern `p` after its first `k`
/// characters: (score, pattern characters matched, length of the current run
/// of consecutive matches). Each match scores five times the run length.
pub open spec fn subseq_state(p: Seq<char>, c: Seq<char>, k: int) -> (int, int, int)
    decreases k,
{
    if k <= 0 {
        (0, 0, 0)
    } else {
        let st = subseq_state(p, c, k - 1);
        if 0 <= st.1 < p.len() && c[k - 1] == p[st.1] {
            (st.0 + (st.2 + 1) * 5, st.1 + 1, st.2 + 1)
        } else {
            (st.0, st.1, 0)
        }
    }
}

/// The fuzzy score of lower-cased candidate `c` for lower-cased pattern `p`:
/// the maximum for equal strings; a prefix scores 1000 and a substring 500,
/// less the extra bytes of the candidate; otherwise the subsequence score, or
/// 0 when the pattern is not a subsequence.
pub open spec fn fuzzy_score(p: Seq<char>, c: Seq<char>) -> int {
    if p == c {
        i64::MAX as int
    } else if p.is_prefix_of(c) {
        1000 - (byte_len(c) - byte_len(p))
    } else if contains_seq(c, p) {
        500 - (byte_len(c) - byte_len(p))
    } else {
        let st = subseq_state(p, c, c.len() as int);
        if st.1 == p.len() {
            st.0
        } else {
            0
        }
    }
}

/// The score's arithmetic stays within `i64`.
pub open spec fn fuzzy_fits(p: Seq<char>, c: Seq<char>) -> bool {
    if p == c {
        true
    } else if p.is_prefix_of(c) || contains_seq(c, p) {
        let base: int = if p.is_prefix_of(c) {
            1000
        } else {
            500
        };
        &&& byte_len(c) <= i64::MAX
        &&& byte_len(p) <= i64::MAX
        &&& i64::MIN <= base - (byte_len(c) - byte_len(p)) <= i64::MAX
    } else {
        subseq_state(p, c, c.len() as int).0 <= i64::MAX
    }
}

proof fn lemma_subseq_state_grows(p: Seq<char>, c: Seq<char>, k: int, m: int)
    requires
        0 <= k <= m <= c.len(),
    ensures
        0 <= subseq_state(p, c, k).0 <= subseq_state(p, c, m).0,
        0 <= subseq_state(p, c, m).1 <= p.len(),
        0 <= subseq_state(p, c, m).2 <= subseq_state(p, c, m).1,
    decreases m,
{
    if m > 0 {
        let k2 = if k < m {
            k
        } else {
            m - 1
        };
        lemma_subseq_state_grows(p, c, k2, m - 1);
    }
}

/// The fuzzy score of `candidate` for `pattern`, compared case-insensitively;
/// `None` when the score's `i64` arithmetic would overflow.
fn fuzzy_match(pattern: &str, candidate: &str) -> (r: Option<i64>)
    ensures
        r is Some <==> fuzzy_fits(lowercase(pattern@), lowercase(candidate@)),
        r matches Some(s) ==> s == fuzzy_score(lowercase(pattern@), lowercase(candidate@)),
{
    let pattern_lower = to_lowercase(pattern);
    let candidate_lower = to_lowercase(candidate);
    let pv = chars_of(pattern_lower.as_str());
    let cv = chars_of(candidate_lower.as_str());
    if chars_eq(pv.as_slice(), cv.as_slice()) {
        return Some(i64::MAX);
    }
    let plen = pattern_lower.as_str().len();
    let clen = candidate_lower.as_str().len();
    assert(plen == byte_len(pv@) && clen == byte_len(cv@));
    let prefix = chars_starts_with(cv.as_slice(), pv.as_slice());
    let inside = !prefix && chars_contains(cv.as_slice(), pv.as_slice());
    if prefix || inside {
        if clen as u64 > 9223372036854775807u64 || plen as u64 > 9223372036854775807u64 {
            return None;
        }
        let c64 = clen as i64;
        let p64 = plen as i64;
        let base: i64 = if prefix {
            1000
        } else {
            500
        };
        return base.checked_sub(c64 - p64);
    }
    assert(pv@ != cv@);
    assert(!pv@.is_prefix_of(cv@));
    assert(!contains_seq(cv@, pv@));
    let mut score: i64 = 0;
    let mut pattern_index: usize = 0;
    let mut consecutive: i64 = 0;
    let mut k: usize = 0;
    while k < cv.len()
        invariant
            pv@ == lowercase(pattern@),
            cv@ == lowercase(candidate@),
            pv@ != cv@,
            !pv@.is_prefix_of(cv@),
            !contains_seq(cv@, pv@),
            k <= cv.len(),
            (score as int, pattern_index as int, consecutive as int) == subseq_state(
                pv@,
                cv@,
                k as int,
            ),
        decreases cv.len() - k,
    {
        proof {
            lemma_subseq_state_grows(pv@, cv@, k as int, k as int);
        }
        let ch = cv[k];
        if pattern_index < pv.len() && ch == pv[pattern_index] {
            let run = match consecutive.checked_add(1) {
                Some(x) => x,
                None => {
                    proof {
                        lemma_subseq_state_grows(pv@, cv@, k + 1, cv@.len() as int);
                    }
                    return None;
                },
            };
            let gain = match run.checked_mul(5) {
                Some(x) => x,
                None => {
                    proof {
                        lemma_subseq_state_grows(pv@, cv@, k + 1, cv@.len() as int);
                    }
                    return None;
                },
            };
            score = match score.checked_add(gain) {
                Some(x) => x,
                None => {
                    proof {
                        lemma_subseq_state_grows(pv@, cv@, k + 1, cv@.len() as int);
                    }
                    return None;
                },
            };
            pattern_index = pattern_index + 1;
            consecutive = run;
        } else {
            consecutive = 0;
        }
        k = k + 1;
    }
    if pattern_index == pv.len() {
        Some(score)
    } else {
        Some(0)
    }
}

/// The best fuzzy match among the first `k` candidates, as (index, score):
/// a later candidate replaces the best only with a strictly higher score,
/// and a score must be above 0 to count.
pub open spec fn best_state(p: Seq<char>, cs: Seq<Seq<char>>, k: int) -> (int, int)
    decreases k,
{
    if k <= 0 {
        (-1, 0)
    } else {
        let st = best_state(p, cs, k - 1);
        let s = fuzzy_score(lowercase(p), lowercase(cs[k - 1]));
        if s > st.1 {
            (k - 1, s)
        } else {
            st
        }
    }
}

/// The index of the best fuzzy match, if any candidate scores above 0.
pub open spec fn best_match_spec(p: Seq<char>, cs: Seq<Seq<char>>) -> Option<int> {
    let st = best_state(p, cs, cs.len() as int);
    if st.0 >= 0 {
        Some(st.0)
    } else {
        None
    }
}

/// Every candidate's fuzzy score can be computed in `i64`.
pub open spec fn fuzzy_defined(p: Seq<char>, cs: Seq<Seq<char>>) -> bool {
    forall|i: int| 0 <= i < cs.len() ==> fuzzy_fits(lowercase(p), lowercase(#[trigger] cs[i]))
}

proof fn lemma_best_state_range(p: Seq<char>, cs: Seq<Seq<char>>, k: int)
    requires
        0 <= k <= cs.len(),
    ensures
        -1 <= best_state(p, cs, k).0 < k,
    decreases k,
{
    if k > 0 {
        lemma_best_state_range(p, cs, k - 1);
    }
}

/// The index of the best fuzzy match for `pattern`; `None` when a score
/// cannot be computed in `i64`.
fn find_best_match_index(pattern: &str, candidates: &[String]) -> (r: Option<Option<usize>>)
    ensures
        r is Some <==> fuzzy_defined(pattern@, views(candidates@)),
        r matches Some(o) ==> match o {
            Some(i) => best_match_spec(pattern@, views(candidates@)) == Some(i as int),
            None => best_match_spec(pattern@, views(candidates@)) is None,
        },
{
    let ghost cs = views(candidates@);
    let mut best_index: Option<usize> = None;
    let mut best_score: i64 = 0;
    let mut k: usize = 0;
    while k < candidates.len()
        invariant
            cs == views(candidates@),
            k <= candidates.len(),
            forall|i: int| 0 <= i < k ==> fuzzy_fits(lowercase(pattern@), lowercase(#[trigger] cs[i])),
            best_state(pattern@, cs, k as int).1 == best_score as int,
            match best_index {
                Some(i) => best_state(pattern@, cs, k as int).0 == i as int,
                None => best_state(pattern@, cs, k as int).0 == -1,
            },
        decreases candidates.len() - k,
    {
        proof {
            lemma_best_state_range(pattern@, cs, k as int);
        }
        let score = match fuzzy_match(pattern, candidates[k].as_str()) {
            Some(s) => s,
            None => {
                assert(!fuzzy_fits(lowercase(pattern@), lowercase(cs[k as int])));
                return None;
            },
        };
        if score > best_score {
            best_score = score;
            best_index = Some(k);
        }
        k = k + 1;
    }
    proof {
        lemma_best_state_range(pattern@, cs, k as int);
    }
    Some(best_index)
}

/// Whether the glob (already normalized) matches the normalized candidate.
pub open spec fn glob_hit(pattern_norm: Seq<char>, c: Seq<char>) -> bool {
    regex_is_match(glob_regex_source(pattern_norm), normalized(c))
}

/// The candidates that the glob matches, in order.
pub open spec fn glob_hits(pattern_norm: Seq<char>, cs: Seq<Seq<char>>) -> Seq<Seq<char>>
    decreases cs.len(),
{
    if cs.len() == 0 {
        Seq::empty()
    } else {
        let rest = glob_hits(pattern_norm, cs.drop_last());
        if glob_hit(pattern_norm, cs.last()) {
            rest.push(cs.last())
        } else {
            rest
        }
    }
}

pub open spec fn normalized_all(cs: Seq<Seq<char>>) -> Seq<Seq<char>> {
    cs.map_values(|c: Seq<char>| normalized(c))
}

/// The keys that `pattern` selects: with `*`, every candidate the glob
/// matches; otherwise the single best fuzzy match, if any.
pub open spec fn matching_keys_spec(pattern: Seq<char>, cs: Seq<Seq<char>>) -> Seq<Seq<char>> {
    if has_char(pattern, '*') {
        glob_hits(normalized(pattern), cs)
    } else {
        match best_match_spec(normalized(pattern), normalized_all(cs)) {
            Some(i) => seq![cs[i]],
            None => Seq::empty(),
        }
    }
}

/// Selecting with `pattern` is defined: its glob compiles, or every fuzzy
/// score fits in `i64`.
pub open spec fn matching_defined(pattern: Seq<char>, cs: Seq<Seq<char>>) -> bool {
    if has_char(pattern, '*') {
        regex_compiles(glob_regex_source(normalized(pattern)))
    } else {
        fuzzy_defined(normalized(pattern), normalized_all(cs))
    }
}

fn normalize_all(candidates: &[String]) -> (r: Vec<String>)
    ensures
        views(r@) == normalized_all(views(candidates@)),
{
    let mut r: Vec<String> = Vec::new();
    let mut i: usize = 0;
    while i < candidates.len()
        invariant
            i <= candidates.len(),
            r@.len() == i,
            forall|j: int| 0 <= j < i ==> #[trigger] r@[j]@ == normalized(candidates@[j]@),
        decreases candidates.len() - i,
    {
        r.push(normalize_session_name(candidates[i].as_str()));
        i = i + 1;
    }
    assert(views(r@) =~= normalized_all(views(candidates@)));
    r
}

/// Whether selecting with `pattern` among `candidates` is defined.
fn matching_is_defined(pattern: &str, candidates: &[String]) -> (r: bool)
    ensures
        r == matching_defined(pattern@, views(candidates@)),
{
    let normalized_pattern = normalize_session_name(pattern);
    let pv = chars_of(pattern);
    if chars_has(pv.as_slice(), '*') {
        let source = glob_to_regex_source(normalized_pattern.as_str());
        regex_new(source.as_str()).is_some()
    } else {
        let normalized_candidates = normalize_all(candidates);
        find_best_match_index(normalized_pattern.as_str(), normalized_candidates.as_slice()).is_some()
    }
}

/// The keys that `pattern` selects among `candidates`: with `*` the pattern
/// is a case-insensitive glob over whole keys and selects every match, in
/// order; otherwise it selects the single best fuzzy match. Dots and
/// underscores are treated alike.
pub fn find_matching_keys(pattern: &str, candidates: &[String]) -> (r: Vec<String>)
    requires
        matching_defined(pattern@, views(candidates@)),
    ensures
        views(r@) == matching_keys_spec(pattern@, views(candidates@)),
{
    let ghost cs = views(candidates@);
    let normalized_pattern = normalize_session_name(pattern);
    let pv = chars_of(pattern);
    if chars_has(pv.as_slice(), '*') {
        let source = glob_to_regex_source(normalized_pattern.as_str());
        let re = match regex_new(source.as_str()) {
            Some(re) => re,
            None => {
                assert(false);
                return Vec::new();
            },
        };
        let mut r: Vec<String> = Vec::new();
        let mut i: usize = 0;
        assert(cs.take(0) =~= Seq::<Seq<char>>::empty());
        assert(views(r@) =~= Seq::<Seq<char>>::empty());
        while i < candidates.len()
            invariant
                cs == views(candidates@),
                re.source_text() == glob_regex_source(normalized_pattern@),
                i <= candidates.len(),
                views(r@) == glob_hits(normalized_pattern@, cs.take(i as int)),
            decreases candidates.len() - i,
        {
            let candidate = normalize_session_name(candidates[i].as_str());
            let ghost before = views(r@);
            if regex_matches(&re, candidate.as_str()) {
                r.push(owned(candidates[i].as_str()));
                assert(views(r@) =~= before.push(cs[i as int]));
            }
            assert(cs.take(i + 1).drop_last() =~= cs.take(i as int));
            i = i + 1;
        }
        assert(cs.take(candidates.len() as int) =~= cs);
        return r;
    }
    let normalized_candidates = normalize_all(candidates);
    let mut r: Vec<String> = Vec::new();
    match find_best_match_index(normalized_pattern.as_str(), normalized_candidates.as_slice()) {
        Some(Some(index)) => {
            proof {
                lemma_best_state_range(
                    normalized_pattern@,
                    views(normalized_candidates@),
                    normalized_candidates@.len() as int,
                );
            }
            r.push(owned(candidates[index].as_str()));
            assert(views(r@) =~= seq![cs[index as int]]);
        },
        _ => {
            assert(views(r@) =~= Seq::<Seq<char>>::empty());
        },
    }
    r
}

/// Selecting with `pattern` when it is defined; `None` when it is not (the
/// glob does not compile, or a fuzzy score overflows `i64`).
pub fn try_find_matching_keys(pattern: &str, candidates: &[String]) -> (r: Option<Vec<String>>)
    ensures
        r is Some <==> matching_defined(pattern@, views(candidates@)),
        r matches Some(v) ==> views(v@) == matching_keys_spec(pattern@, views(candidates@)),
{
    if matching_is_defined(pattern, candidates) {
        Some(find_matching_keys(pattern, candidates))
    } else {
        None
    }
}

/// `matched` followed by each of `keys` that it does not hold yet, in order.
pub open spec fn add_new_keys(matched: Seq<Seq<char>>, keys: Seq<Seq<char>>) -> Seq<Seq<char>>
    decreases keys.len(),
{
    if keys.len() == 0 {
        matched
    } else {
        let m = add_new_keys(matched, keys.drop_last());
        if m.contains(keys.last()) {
            m
        } else {
            m.push(keys.last())
        }
    }
}

/// After the first `k` patterns: the keys matched so far, each once, in the
/// order first matched; and the patterns that matched nothing, in order.
pub open spec fn resolve_keys_spec(patterns: Seq<Seq<char>>, cs: Seq<Seq<char>>, k: int) -> (
    Seq<Seq<char>>,
    Seq<Seq<char>>,
)
    decreases k,
{
    if k <= 0 {
        (Seq::empty(), Seq::empty())
    } else {
        let st = resolve_keys_spec(patterns, cs, k - 1);
        let keys = matching_keys_spec(patterns[k - 1], cs);
        if keys.len() == 0 {
            (st.0, st.1.push(patterns[k - 1]))
        } else {
            (add_new_keys(st.0, keys), st.1)
        }
    }
}

/// Selecting is defined for every pattern.
pub open spec fn all_patterns_defined(patterns: Seq<Seq<char>>, cs: Seq<Seq<char>>) -> bool {
    forall|i: int| 0 <= i < patterns.len() ==> matching_defined(#[trigger] patterns[i], cs)
}

fn holds_key(v: &Vec<String>, key: &str) -> (r: bool)
    ensures
        r == views(v@).contains(key@),
{
    let k = chars_of(key);
    let mut i: usize = 0;
    while i < v.len()
        invariant
            k@ == key@,
            i <= v.len(),
            forall|j: int| 0 <= j < i ==> views(v@)[j] != key@,
        decreases v.len() - i,
    {
        let c = chars_of(v[i].as_str());
        if chars_eq(c.as_slice(), k.as_slice()) {
            assert(views(v@)[i as int] == key@);
            return true;
        }
        i = i + 1;
    }
    false
}

/// The keys matched by any pattern (each once, in the order first matched)
/// and the patterns that matched no key.
pub fn resolve_entry_keys(patterns: &[String], candidates: &[String]) -> (r: (
    Vec<String>,
    Vec<String>,
))
    requires
        all_patterns_defined(views(patterns@), views(candidates@)),
    ensures
        (views(r.0@), views(r.1@)) == resolve_keys_spec(
            views(patterns@),
            views(candidates@),
            patterns@.len() as int,
        ),
{
    let ghost ps = views(patterns@);
    let ghost cs = views(candidates@);
    let mut matched: Vec<String> = Vec::new();
    let mut unmatched: Vec<String> = Vec::new();
    let mut k: usize = 0;
    assert(views(matched@) =~= Seq::<Seq<char>>::empty());
    assert(views(unmatched@) =~= Seq::<Seq<char>>::empty());
    while k < patterns.len()
        invariant
            ps == views(patterns@),
            cs == views(candidates@),
            all_patterns_defined(ps, cs),
            k <= patterns.len(),
            (views(matched@), views(unmatched@)) == resolve_keys_spec(ps, cs, k as int),
        decreases patterns.len() - k,
    {
        assert(matching_defined(ps[k as int], cs));
        let keys = find_matching_keys(patterns[k].as_str(), candidates);
        if keys.len() == 0 {
            let ghost before = views(unmatched@);
            unmatched.push(owned(patterns[k].as_str()));
            assert(views(unmatched@) =~= before.push(ps[k as int]));
        } else {
            let ghost start = views(matched@);
            let mut j: usize = 0;
            assert(views(keys@).take(0) =~= Seq::<Seq<char>>::empty());
            while j < keys.len()
                invariant
                    j <= keys.len(),
                    views(matched@) == add_new_keys(start, views(keys@).take(j as int)),
                decreases keys.len() - j,
            {
                let ghost before = views(matched@);
                if !holds_key(&matched, keys[j].as_str()) {
                    matched.push(owned(keys[j].as_str()));
                    assert(views(matched@) =~= before.push(views(keys@)[j as int]));
                }
                assert(views(keys@).take(j + 1).drop_last() =~= views(keys@).take(j as int));
                j = j + 1;
            }
            assert(views(keys@).take(keys.len() as int) =~= views(keys@));
        }
        k = k + 1;
    }
    (matched, unmatched)
}

/// Resolving keys when selecting is defined for every pattern; `None`
/// otherwise.
pub fn try_resolve_entry_keys(patterns: &[String], candidates: &[String]) -> (r: Option<
    (Vec<String>, Vec<String>),
>)
    ensures
        r is Some <==> all_patterns_defined(views(patterns@), views(candidates@)),
        r matches Some(p) ==> (views(p.0@), views(p.1@)) == resolve_keys_spec(
            views(patterns@),
            views(candidates@),
            patterns@.len() as int,
        ),
{
    let mut k: usize = 0;
    while k < patterns.len()
        invariant
            k <= patterns.len(),
            forall|i: int|
                0 <= i < k ==> matching_defined(#[trigger] views(patterns@)[i], views(candidates@)),
        decreases patterns.len() - k,
    {
        if !matching_is_defined(patterns[k].as_str(), candidates) {
            assert(views(patterns@)[k as int] == patterns@[k as int]@);
            assert(!matching_defined(views(patterns@)[k as int], views(candidates@)));
            return None;
        }
        k = k + 1;
    }
    Some(resolve_entry_keys(patterns, candidates))
}

proof fn lemma_push_keeps(s: Seq<Seq<char>>, y: Seq<char>)
    ensures
        forall|x: Seq<char>| s.contains(x) ==> s.push(y).contains(x),
        s.push(y).contains(y),
        forall|x: Seq<char>| s.push(y).contains(x) ==> s.contains(x) || x == y,
{
    assert forall|x: Seq<char>| s.contains(x) implies s.push(y).contains(x) by {
        let i = choose|i: int| 0 <= i < s.len() && s[i] == x;
        assert(s.push(y)[i] == x);
    }
    assert(s.push(y)[s.len() as int] == y);
    assert forall|x: Seq<char>| s.push(y).contains(x) implies s.contains(x) || x == y by {
        let i = choose|i: int| 0 <= i < s.push(y).len() && s.push(y)[i] == x;
        if i < s.len() {
            assert(s[i] == x);
        }
    }
}

proof fn lemma_drop_last_contains(s: Seq<Seq<char>>)
    requires
        s.len() > 0,
    ensures
        forall|x: Seq<char>| s.contains(x) <==> s.drop_last().contains(x) || x == s.last(),
{
    assert(s.drop_last().push(s.last()) =~= s);
    lemma_push_keeps(s.drop_last(), s.last());
}

proof fn lemma_add_new_keys(m: Seq<Seq<char>>, keys: Seq<Seq<char>>)
    ensures
        m.no_duplicates() ==> add_new_keys(m, keys).no_duplicates(),
        forall|x: Seq<char>| m.contains(x) ==> add_new_keys(m, keys).contains(x),
        forall|x: Seq<char>| keys.contains(x) ==> add_new_keys(m, keys).contains(x),
        forall|x: Seq<char>|
            add_new_keys(m, keys).contains(x) ==> m.contains(x) || keys.contains(x),
    decreases keys.len(),
{
    if keys.len() > 0 {
        let init = keys.drop_last();
        lemma_add_new_keys(m, init);
        lemma_drop_last_contains(keys);
        let r = add_new_keys(m, init);
        lemma_push_keeps(r, keys.last());
        if !r.contains(keys.last()) && r.no_duplicates() {
            assert forall|i: int, j: int|
                0 <= i < r.push(keys.last()).len() && 0 <= j < r.push(keys.last()).len() && i != j
                    implies r.push(keys.last())[i] != r.push(keys.last())[j] by {
                if i < r.len() && j == r.len() {
                    assert(r[i] != keys.last());
                }
                if j < r.len() && i == r.len() {
                    assert(r[j] != keys.last());
                }
            }
        }
    } else {
        assert forall|x: Seq<char>| keys.contains(x) implies add_new_keys(m, keys).contains(x) by {
            let i = choose|i: int| 0 <= i < keys.len() && keys[i] == x;
        }
    }
}

proof fn lemma_glob_hits_in(pattern_norm: Seq<char>, cs: Seq<Seq<char>>)
    ensures
        forall|x: Seq<char>| glob_hits(pattern_norm, cs).contains(x) ==> cs.contains(x),
    decreases cs.len(),
{
    if cs.len() > 0 {
        lemma_glob_hits_in(pattern_norm, cs.drop_last());
        lemma_drop_last_contains(cs);
        lemma_push_keeps(glob_hits(pattern_norm, cs.drop_last()), cs.last());
    }
}

proof fn lemma_matching_keys_in(pattern: Seq<char>, cs: Seq<Seq<char>>)
    ensures
        forall|x: Seq<char>| matching_keys_spec(pattern, cs).contains(x) ==> cs.contains(x),
{
    if has_char(pattern, '*') {
        lemma_glob_hits_in(normalized(pattern), cs);
    } else {
        lemma_best_state_range(
            normalized(pattern),
            normalized_all(cs),
            normalized_all(cs).len() as int,
        );
        assert forall|x: Seq<char>| matching_keys_spec(pattern, cs).contains(x) implies cs.contains(
            x,
        ) by {
            let i = best_match_spec(normalized(pattern), normalized_all(cs))->0;
            assert(seq![cs[i]][0] == x);
            assert(cs[i] == x);
        }
    }
}

/// Resolving keys reports each matched key once, every matched key is one of
/// the candidates, and every key that any pattern selects is reported.
pub proof fn law_resolved_keys_distinct_and_complete(
    patterns: Seq<Seq<char>>,
    cs: Seq<Seq<char>>,
    k: int,
)
    requires
        0 <= k <= patterns.len(),
    ensures
        resolve_keys_spec(patterns, cs, k).0.no_duplicates(),
        forall|x: Seq<char>| resolve_keys_spec(patterns, cs, k).0.contains(x) ==> cs.contains(x),
        forall|i: int, x: Seq<char>|
            0 <= i < k && #[trigger] matching_keys_spec(patterns[i], cs).contains(x)
                ==> resolve_keys_spec(patterns, cs, k).0.contains(x),
    decreases k,
{
    if k > 0 {
        law_resolved_keys_distinct_and_complete(patterns, cs, k - 1);
        let st = resolve_keys_spec(patterns, cs, k - 1);
        let keys = matching_keys_spec(patterns[k - 1], cs);
        lemma_add_new_keys(st.0, keys);
        lemma_matching_keys_in(patterns[k - 1], cs);
        assert forall|i: int, x: Seq<char>|
            0 <= i < k && #[trigger] matching_keys_spec(patterns[i], cs).contains(
                x,
            ) implies resolve_keys_spec(patterns, cs, k).0.contains(x) by {
            if i < k - 1 {
                assert(st.0.contains(x));
            }
        }
    }
}

/// A pattern is reported unmatched exactly when it selects no key.
pub proof fn law_unmatched_patterns_select_nothing(
    patterns: Seq<Seq<char>>,
    cs: Seq<Seq<char>>,
    k: int,
)
    requires
        0 <= k <= patterns.len(),
    ensures
        forall|x: Seq<char>|
            #[trigger] resolve_keys_spec(patterns, cs, k).1.contains(x) <==> exists|i: int|
                0 <= i < k && patterns[i] == x && matching_keys_spec(patterns[i], cs).len() == 0,
    decreases k,
{
    if k > 0 {
        law_unmatched_patterns_select_nothing(patterns, cs, k - 1);
        let st = resolve_keys_spec(patterns, cs, k - 1);
        let keys = matching_keys_spec(patterns[k - 1], cs);
        lemma_push_keeps(st.1, patterns[k - 1]);
        assert forall|x: Seq<char>|
            #[trigger] resolve_keys_spec(patterns, cs, k).1.contains(x) <==> exists|i: int|
                0 <= i < k && patterns[i] == x && matching_keys_spec(patterns[i], cs).len() == 0 by {
            if exists|i: int|
                0 <= i < k && patterns[i] == x && matching_keys_spec(patterns[i], cs).len() == 0 {
                let i = choose|i: int|
                    0 <= i < k && patterns[i] == x && matching_keys_spec(patterns[i], cs).len() == 0;
                if i < k - 1 {
                    assert(st.1.contains(x));
                }
            }
            if resolve_keys_spec(patterns, cs, k).1.contains(x) {
                if keys.len() == 0 && x == patterns[k - 1] {
                    assert(0 <= k - 1 < k && patterns[k - 1] == x && matching_keys_spec(
                        patterns[k - 1],
                        cs,
                    ).len() == 0);
                } else {
                    assert(st.1.contains(x));
                    let i = choose|i: int|
                        0 <= i < k - 1 && patterns[i] == x && matching_keys_spec(patterns[i], cs).len()
                            == 0;
                    assert(0 <= i < k && patterns[i] == x && matching_keys_spec(patterns[i], cs).len()
                        == 0);
                }
            }
        }
    }
}

proof fn lemma_normalized_idempotent(s: Seq<char>)
    ensures
        normalized(normalized(s)) == normalized(s),
        has_char(normalized(s), '*') == has_char(s, '*'),
{
    assert(normalized(normalized(s)) =~= normalized(s));
    if has_char(s, '*') {
        let i = choose|i: int| 0 <= i < s.len() && s[i] == '*';
        assert(normalized(s)[i] == '*');
    }
    if has_char(normalized(s), '*') {
        let i = choose|i: int| 0 <= i < normalized(s).len() && normalized(s)[i] == '*';
        assert(s[i] == '*');
    }
}

/// Every subsequence score is a non-negative multiple of five.
proof fn lemma_subseq_score_multiple_of_five(p: Seq<char>, c: Seq<char>, k: int)
    requires
        0 <= k <= c.len(),
    ensures
        subseq_state(p, c, k).0 % 5 == 0,
        subseq_state(p, c, k).0 >= 0,
        subseq_state(p, c, k).2 >= 0,
    decreases k,
{
    if k > 0 {
        lemma_subseq_score_multiple_of_five(p, c, k - 1);
        let st = subseq_state(p, c, k - 1);
        assert((st.0 + (st.2 + 1) * 5) % 5 == 0) by (nonlinear_arith)
            requires
                st.0 % 5 == 0,
                st.2 >= 0,
        ;
    }
}

/// The UTF-8 encoding of a concatenation is the concatenation of encodings.
proof fn lemma_encode_utf8_add(a: Seq<char>, b: Seq<char>)
    ensures
        vstd::utf8::encode_utf8(a + b) == vstd::utf8::encode_utf8(a) + vstd::utf8::encode_utf8(b),
    decreases a.len(),
{
    if a.len() == 0 {
        assert(a + b =~= b);
        assert(vstd::utf8::encode_utf8(a) =~= Seq::<u8>::empty());
        assert(vstd::utf8::encode_utf8(a) + vstd::utf8::encode_utf8(b) =~= vstd::utf8::encode_utf8(
            b,
        ));
    } else {
        lemma_encode_utf8_add(a.drop_first(), b);
        assert((a + b).drop_first() =~= a.drop_first() + b);
        assert((a + b)[0] == a[0]);
        assert(vstd::utf8::encode_utf8(a + b) =~= vstd::utf8::encode_scalar(a[0] as u32)
            + vstd::utf8::encode_utf8(a.drop_first()) + vstd::utf8::encode_utf8(b));
    }
}

/// A run of characters inside `c` takes no more bytes than `c`.
proof fn lemma_contained_bytes(c: Seq<char>, p: Seq<char>)
    requires
        p.is_prefix_of(c) || contains_seq(c, p),
    ensures
        vstd::utf8::encode_utf8(p).len() <= vstd::utf8::encode_utf8(c).len(),
{
    let i: int = if p.is_prefix_of(c) {
        0
    } else {
        choose|i: int| 0 <= i && i + p.len() <= c.len() && #[trigger] c.subrange(i, i + p.len()) == p
    };
    if p.is_prefix_of(c) {
        assert(c.subrange(0, p.len() as int) =~= p);
    }
    let x = c.subrange(0, i);
    let y = c.subrange(i + p.len(), c.len() as int);
    assert(c =~= x + p + y);
    lemma_encode_utf8_add(x + p, y);
    lemma_encode_utf8_add(x, p);
}

/// Strings whose UTF-8 encoding fits in memory, as every string does.
pub open spec fn fits_in_memory(s: Seq<char>) -> bool {
    vstd::utf8::encode_utf8(s).len() <= usize::MAX
}

/// Only equal strings score the maximum.
proof fn lemma_only_equal_scores_max(p: Seq<char>, c: Seq<char>)
    requires
        p != c,
        fuzzy_fits(p, c),
        fits_in_memory(p),
        fits_in_memory(c),
    ensures
        fuzzy_score(p, c) < i64::MAX,
{
    if p.is_prefix_of(c) || contains_seq(c, p) {
        lemma_contained_bytes(c, p);
        assert(byte_len(c) >= byte_len(p));
    } else {
        lemma_subseq_score_multiple_of_five(p, c, c.len() as int);
        assert(i64::MAX % 5 == 2);
    }
}

/// The scan for the best match, up to the first exact match, keeps a score
/// below the maximum; from the exact match on, it holds that match.
proof fn lemma_best_state_exact(p: Seq<char>, cs: Seq<Seq<char>>, j: int, k: int)
    requires
        0 <= j < cs.len(),
        0 <= k <= cs.len(),
        lowercase(cs[j]) == lowercase(p),
        forall|i: int| 0 <= i < j ==> lowercase(#[trigger] cs[i]) != lowercase(p),
        fuzzy_defined(p, cs),
        fits_in_memory(lowercase(p)),
        forall|i: int| 0 <= i < cs.len() ==> fits_in_memory(lowercase(#[trigger] cs[i])),
    ensures
        k <= j ==> best_state(p, cs, k).1 < i64::MAX,
        k > j ==> best_state(p, cs, k) == (j, i64::MAX as int),
    decreases k,
{
    if k > 0 {
        lemma_best_state_exact(p, cs, j, k - 1);
        let i = k - 1;
        assert(fuzzy_fits(lowercase(p), lowercase(cs[i])));
        assert(fits_in_memory(lowercase(cs[i])));
        if i < j {
            lemma_only_equal_scores_max(lowercase(p), lowercase(cs[i]));
        } else if i > j {
            if lowercase(cs[i]) != lowercase(p) {
                lemma_only_equal_scores_max(lowercase(p), lowercase(cs[i]));
            }
        }
    }
}

/// An exact match wins: when some candidate equals the pattern, ignoring
/// case and treating dots and underscores alike, a pattern without `*`
/// selects the first such candidate and nothing else.
pub proof fn law_exact_match_wins(pattern: Seq<char>, cs: Seq<Seq<char>>, j: int)
    requires
        !has_char(pattern, '*'),
        0 <= j < cs.len(),
        lowercase(normalized(cs[j])) == lowercase(normalized(pattern)),
        forall|i: int|
            0 <= i < j ==> lowercase(normalized(#[trigger] cs[i])) != lowercase(
                normalized(pattern),
            ),
        matching_defined(pattern, cs),
        fits_in_memory(lowercase(normalized(pattern))),
        forall|i: int|
            0 <= i < cs.len() ==> fits_in_memory(lowercase(normalized(#[trigger] cs[i]))),
    ensures
        matching_keys_spec(pattern, cs) == seq![cs[j]],
{
    let ncs = normalized_all(cs);
    let np = normalized(pattern);
    assert forall|i: int| 0 <= i < ncs.len() implies fits_in_memory(lowercase(#[trigger] ncs[i])) by {
        assert(ncs[i] == normalized(cs[i]));
    }
    assert forall|i: int| 0 <= i < j implies lowercase(#[trigger] ncs[i]) != lowercase(np) by {
        assert(ncs[i] == normalized(cs[i]));
    }
    assert(ncs[j] == normalized(cs[j]));
    lemma_best_state_exact(np, ncs, j, ncs.len() as int);
}


/// Dots and underscores are equivalent in patterns: a pattern selects the
/// same keys, under the same conditions, as its normalized form.
pub proof fn law_pattern_dots_and_underscores_equivalent(pattern: Seq<char>, cs: Seq<Seq<char>>)
    ensures
        matching_keys_spec(normalized(pattern), cs) == matching_keys_spec(pattern, cs),
        matching_defined(normalized(pattern), cs) == matching_defined(pattern, cs),
{
    lemma_normalized_idempotent(pattern);
}

/// Dots and underscores are equivalent in keys: keys that normalize alike are
/// selected alike by a glob.
pub proof fn law_glob_ignores_dot_underscore_in_keys(pattern: Seq<char>, a: Seq<char>, b: Seq<char>)
    requires
        normalized(a) == normalized(b),
    ensures
        glob_hit(normalized(pattern), a) == glob_hit(normalized(pattern), b),
{
}

/// Normalizing a name twice is the same as normalizing it once.
pub proof fn law_normalize_idempotent(name: Seq<char>)
    ensures
        normalized(normalized(name)) == normalized(name),
        normalized(name).len() == name.len(),
{
    lemma_normalized_idempotent(name);
}

} // verus!
